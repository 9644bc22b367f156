//! A directory's table of entries: names in lexicographic order, each with the
//! inode it leads to and that inode's kind.

use vstd::prelude::*;
use crate::names::{
    lemma_name_lt_irreflexive, lemma_name_lt_total, lemma_name_lt_transitive, name_equal,
    name_less, name_lt, name_to_vec,
};

verus! {

/// What an inode is.
#[derive(Clone, Copy, Debug, PartialEq, Eq, Structural)]
pub enum FileKind {
    File,
    Directory,
}

/// One entry of a directory.
#[derive(Debug)]
pub struct DirEntry {
    pub name: Vec<u8>,
    pub inode: u64,
    pub kind: FileKind,
}

/// A directory entry as a mathematical value.
pub struct DirEntryView {
    pub name: Seq<u8>,
    pub inode: u64,
    pub kind: FileKind,
}

impl View for DirEntry {
    type V = DirEntryView;

    open spec fn view(&self) -> DirEntryView {
        DirEntryView { name: self.name@, inode: self.inode, kind: self.kind }
    }
}

impl DirEntry {
    /// An owned copy of the entry.
    pub fn duplicate(&self) -> (copy: DirEntry)
        ensures
            copy@ == self@,
    {
        DirEntry { name: name_to_vec(self.name.as_slice()), inode: self.inode, kind: self.kind }
    }
}

/// The names of `s` strictly increase, so no name occurs twice.
pub open spec fn sorted(s: Seq<DirEntryView>) -> bool {
    forall|i: int, j: int| 0 <= i < j < s.len() ==> name_lt(#[trigger] s[i].name, #[trigger] s[j].name)
}

/// How many leading entries of `s` have a name before `name`: the place where
/// `name` stands, or would stand, in a sorted table.
pub open spec fn lower_bound(s: Seq<DirEntryView>, name: Seq<u8>) -> int
    decreases s.len(),
{
    if s.len() == 0 || !name_lt(s[0].name, name) {
        0
    } else {
        1 + lower_bound(s.drop_first(), name)
    }
}

/// The table has an entry called `name`.
pub open spec fn dir_holds(s: Seq<DirEntryView>, name: Seq<u8>) -> bool {
    let p = lower_bound(s, name);
    p < s.len() && s[p].name == name
}

/// The inode and kind that `name` leads to.
pub open spec fn dir_get(s: Seq<DirEntryView>, name: Seq<u8>) -> Option<(u64, FileKind)> {
    let p = lower_bound(s, name);
    if dir_holds(s, name) {
        Some((s[p].inode, s[p].kind))
    } else {
        None
    }
}

/// The table with `e` put in: over the entry of the same name if there is one,
/// else at the place that keeps the names in order.
pub open spec fn dir_insert(s: Seq<DirEntryView>, e: DirEntryView) -> Seq<DirEntryView> {
    let p = lower_bound(s, e.name);
    if dir_holds(s, e.name) {
        s.update(p, e)
    } else {
        s.insert(p, e)
    }
}

/// The table without the entry called `name`.
pub open spec fn dir_remove(s: Seq<DirEntryView>, name: Seq<u8>) -> Seq<DirEntryView> {
    let p = lower_bound(s, name);
    if dir_holds(s, name) {
        s.remove(p)
    } else {
        s
    }
}

/// The first place in `s` whose entry leads to `inode` with `kind`, at or after
/// `from`; the length of `s` if there is none.
pub open spec fn first_with_value(s: Seq<DirEntryView>, inode: u64, kind: FileKind, from: int)
    -> int
    decreases s.len() - from,
{
    if from < 0 || from >= s.len() {
        s.len() as int
    } else if s[from].inode == inode && s[from].kind == kind {
        from
    } else {
        first_with_value(s, inode, kind, from + 1)
    }
}

/// What `lower_bound` finds: everything before it is smaller than `name`, and
/// the entry at it, if any, is not.
pub proof fn lemma_lower_bound(s: Seq<DirEntryView>, name: Seq<u8>)
    ensures
        0 <= lower_bound(s, name) <= s.len(),
        forall|j: int| 0 <= j < lower_bound(s, name) ==> name_lt(#[trigger] s[j].name, name),
        lower_bound(s, name) < s.len() ==> !name_lt(s[lower_bound(s, name)].name, name),
    decreases s.len(),
{
    if s.len() == 0 || !name_lt(s[0].name, name) {
    } else {
        let t = s.drop_first();
        lemma_lower_bound(t, name);
        assert forall|j: int| 0 <= j < lower_bound(s, name) implies name_lt(
            #[trigger] s[j].name,
            name,
        ) by {
            if j > 0 {
                assert(s[j] == t[j - 1]);
            }
        }
        if lower_bound(s, name) < s.len() {
            assert(s[lower_bound(s, name)] == t[lower_bound(t, name)]);
        }
    }
}

/// In a sorted table a name is held exactly when some entry carries it, and
/// `dir_get` gives that entry's value.
pub proof fn lemma_dir_get_finds(s: Seq<DirEntryView>, i: int)
    requires
        sorted(s),
        0 <= i < s.len(),
    ensures
        lower_bound(s, s[i].name) == i,
        dir_holds(s, s[i].name),
        dir_get(s, s[i].name) == Some((s[i].inode, s[i].kind)),
{
    let name = s[i].name;
    let p = lower_bound(s, name);
    lemma_lower_bound(s, name);
    lemma_name_lt_irreflexive(name);
    if p < i {
        assert(name_lt(s[p].name, s[i].name));
    } else if p > i {
        assert(name_lt(s[i].name, name));
    }
}

/// A name that no entry carries is not held.
pub proof fn lemma_dir_holds_entry(s: Seq<DirEntryView>, name: Seq<u8>)
    ensures
        dir_holds(s, name) ==> 0 <= lower_bound(s, name) < s.len() && s[lower_bound(
            s,
            name,
        )].name == name,
        (forall|i: int| 0 <= i < s.len() ==> (#[trigger] s[i]).name != name) ==> !dir_holds(
            s,
            name,
        ),
{
    lemma_lower_bound(s, name);
}

/// Putting an entry into a sorted table leaves it sorted, and the entry is then
/// found under its name.
pub proof fn lemma_dir_insert_sorted(s: Seq<DirEntryView>, e: DirEntryView)
    requires
        sorted(s),
    ensures
        sorted(dir_insert(s, e)),
        dir_get(dir_insert(s, e), e.name) == Some((e.inode, e.kind)),
{
    let p = lower_bound(s, e.name);
    let t = dir_insert(s, e);
    lemma_lower_bound(s, e.name);
    if dir_holds(s, e.name) {
        assert forall|i: int, j: int| 0 <= i < j < t.len() implies name_lt(
            #[trigger] t[i].name,
            #[trigger] t[j].name,
        ) by {
            assert(t[i].name == s[i].name && t[j].name == s[j].name);
        }
    } else {
        assert forall|i: int, j: int| 0 <= i < j < t.len() implies name_lt(
            #[trigger] t[i].name,
            #[trigger] t[j].name,
        ) by {
            if j < p {
                assert(t[i] == s[i] && t[j] == s[j]);
            } else if j == p {
                assert(t[i] == s[i]);
            } else if i == p {
                assert(t[j] == s[j - 1]);
                lemma_name_lt_total(e.name, s[p].name);
                if j - 1 > p {
                    assert(name_lt(s[p].name, s[j - 1].name));
                    lemma_name_lt_transitive(e.name, s[p].name, s[j - 1].name);
                }
            } else if i < p {
                assert(t[i] == s[i] && t[j] == s[j - 1]);
            } else {
                assert(t[i] == s[i - 1] && t[j] == s[j - 1]);
            }
        }
    }
    assert(t[p] == e);
    lemma_dir_get_finds(t, p);
}

/// Taking an entry out of a sorted table leaves it sorted, and the name is then
/// not held.
pub proof fn lemma_dir_remove_sorted(s: Seq<DirEntryView>, name: Seq<u8>)
    requires
        sorted(s),
    ensures
        sorted(dir_remove(s, name)),
        !dir_holds(dir_remove(s, name), name),
{
    let p = lower_bound(s, name);
    let t = dir_remove(s, name);
    lemma_lower_bound(s, name);
    if dir_holds(s, name) {
        assert forall|i: int, j: int| 0 <= i < j < t.len() implies name_lt(
            #[trigger] t[i].name,
            #[trigger] t[j].name,
        ) by {
            let si = if i < p { i } else { i + 1 };
            let sj = if j < p { j } else { j + 1 };
            assert(t[i] == s[si] && t[j] == s[sj]);
        }
        assert forall|i: int| 0 <= i < t.len() implies (#[trigger] t[i]).name != name by {
            let si = if i < p { i } else { i + 1 };
            assert(t[i] == s[si]);
            lemma_name_lt_irreflexive(name);
            if si < p {
                assert(name_lt(s[si].name, s[p].name));
            } else {
                assert(name_lt(s[p].name, s[si].name));
            }
        }
        lemma_dir_holds_entry(t, name);
    }
}

/// Every entry of the table after an insertion is the new entry or one that
/// was there before.
pub proof fn lemma_dir_insert_entries(s: Seq<DirEntryView>, e: DirEntryView, k: int)
    requires
        0 <= k < dir_insert(s, e).len(),
    ensures
        dir_insert(s, e)[k] == e || exists|j: int| 0 <= j < s.len() && s[j] == dir_insert(s, e)[k],
{
    let p = lower_bound(s, e.name);
    let t = dir_insert(s, e);
    lemma_lower_bound(s, e.name);
    if k != p {
        if dir_holds(s, e.name) {
            assert(s[k] == t[k]);
        } else if k < p {
            assert(s[k] == t[k]);
        } else {
            assert(s[k - 1] == t[k]);
        }
    }
}

/// Every entry of the table after a removal was there before.
pub proof fn lemma_dir_remove_entries(s: Seq<DirEntryView>, name: Seq<u8>, k: int)
    requires
        0 <= k < dir_remove(s, name).len(),
    ensures
        exists|j: int| 0 <= j < s.len() && s[j] == dir_remove(s, name)[k],
{
    let p = lower_bound(s, name);
    let t = dir_remove(s, name);
    lemma_lower_bound(s, name);
    if dir_holds(s, name) {
        if k < p {
            assert(s[k] == t[k]);
        } else {
            assert(s[k + 1] == t[k]);
        }
    } else {
        assert(s[k] == t[k]);
    }
}

/// The place that `lower_bound` finds is the only one with everything smaller
/// before it and nothing smaller at it.
pub proof fn lemma_lower_bound_is(s: Seq<DirEntryView>, name: Seq<u8>, p: int)
    requires
        0 <= p <= s.len(),
        forall|j: int| 0 <= j < p ==> name_lt(#[trigger] s[j].name, name),
        p < s.len() ==> !name_lt(s[p].name, name),
    ensures
        lower_bound(s, name) == p,
    decreases s.len(),
{
    if p > 0 {
        let t = s.drop_first();
        assert(name_lt(s[0].name, name));
        assert forall|j: int| 0 <= j < p - 1 implies name_lt(#[trigger] t[j].name, name) by {
            assert(t[j] == s[j + 1]);
        }
        if p - 1 < t.len() {
            assert(t[p - 1] == s[p]);
        }
        lemma_lower_bound_is(t, name, p - 1);
    }
}

/// Taking out what was put in gives the table back, where the name was not
/// in it before.
pub proof fn lemma_dir_insert_then_remove(s: Seq<DirEntryView>, e: DirEntryView)
    requires
        !dir_holds(s, e.name),
    ensures
        dir_holds(dir_insert(s, e), e.name),
        dir_get(dir_insert(s, e), e.name) == Some((e.inode, e.kind)),
        dir_remove(dir_insert(s, e), e.name) == s,
{
    let p = lower_bound(s, e.name);
    let t = dir_insert(s, e);
    lemma_lower_bound(s, e.name);
    lemma_name_lt_irreflexive(e.name);
    assert(t == s.insert(p, e));
    assert forall|j: int| 0 <= j < p implies name_lt(#[trigger] t[j].name, e.name) by {
        assert(t[j] == s[j]);
    }
    assert(t[p] == e);
    lemma_lower_bound_is(t, e.name, p);
    assert(t.remove(p) =~= s);
}

/// Every entry of another name is still in the table after a removal.
pub proof fn lemma_dir_remove_keeps(s: Seq<DirEntryView>, name: Seq<u8>, j: int)
    requires
        0 <= j < s.len(),
        s[j].name != name,
    ensures
        exists|k: int| 0 <= k < dir_remove(s, name).len() && dir_remove(s, name)[k] == s[j],
{
    let p = lower_bound(s, name);
    let t = dir_remove(s, name);
    lemma_lower_bound(s, name);
    if dir_holds(s, name) {
        if j < p {
            assert(t[j] == s[j]);
        } else {
            assert(t[j - 1] == s[j]);
        }
    } else {
        assert(t[j] == s[j]);
    }
}

/// In a sorted table, no entry that is left after a removal carries the removed
/// name.
pub proof fn lemma_dir_remove_names(s: Seq<DirEntryView>, name: Seq<u8>, k: int)
    requires
        sorted(s),
        0 <= k < dir_remove(s, name).len(),
    ensures
        dir_remove(s, name)[k].name != name,
{
    let p = lower_bound(s, name);
    let t = dir_remove(s, name);
    lemma_lower_bound(s, name);
    lemma_name_lt_irreflexive(name);
    if dir_holds(s, name) {
        let sk = if k < p {
            k
        } else {
            k + 1
        };
        assert(t[k] == s[sk]);
        if sk < p {
            assert(name_lt(s[sk].name, s[p].name));
        } else {
            assert(name_lt(s[p].name, s[sk].name));
        }
    } else {
        assert(t[k] == s[k]);
        if k < p {
            assert(name_lt(s[k].name, name));
        } else if k == p {
        } else {
            assert(name_lt(s[p].name, s[k].name));
            lemma_name_lt_total(s[p].name, name);
            if name_lt(name, s[p].name) {
                lemma_name_lt_transitive(name, s[p].name, s[k].name);
            }
        }
    }
}

/// The table of a directory. Its names are always in strictly increasing
/// lexicographic order, which is also the order in which a listing reads them.
#[derive(Debug)]
pub struct DirectoryDescriptor {
    entries: Vec<DirEntry>,
}

impl View for DirectoryDescriptor {
    type V = Seq<DirEntryView>;

    closed spec fn view(&self) -> Seq<DirEntryView> {
        self.entries@.map_values(|e: DirEntry| e@)
    }
}

impl DirectoryDescriptor {
    #[verifier::type_invariant]
    spec fn in_order(&self) -> bool {
        sorted(self@)
    }

    /// An empty table.
    pub fn new() -> (dir: DirectoryDescriptor)
        ensures
            dir@ == Seq::<DirEntryView>::empty(),
    {
        let dir = DirectoryDescriptor { entries: Vec::new() };
        assert(dir@ =~= Seq::<DirEntryView>::empty());
        dir
    }

    /// The number of entries; the names are in order.
    pub fn len(&self) -> (n: usize)
        ensures
            n == self@.len(),
            sorted(self@),
    {
        proof {
            use_type_invariant(self);
        }
        self.entries.len()
    }

    /// The entry at place `i` of the listing order.
    pub fn entry(&self, i: usize) -> (e: &DirEntry)
        requires
            i < self@.len(),
        ensures
            e@ == self@[i as int],
    {
        &self.entries[i]
    }

    fn position(&self, name: &[u8]) -> (p: usize)
        ensures
            p == lower_bound(self@, name@),
            p <= self@.len(),
    {
        let mut i: usize = 0;
        assert(self@.skip(0) =~= self@);
        while i < self.entries.len()
            invariant
                i <= self.entries.len(),
                self@.len() == self.entries.len(),
                lower_bound(self@, name@) == i + lower_bound(self@.skip(i as int), name@),
            decreases self.entries.len() - i,
        {
            let ghost rest = self@.skip(i as int);
            assert(rest[0] == self.entries@[i as int]@);
            if !name_less(self.entries[i].name.as_slice(), name) {
                return i;
            }
            assert(rest.drop_first() =~= self@.skip(i + 1));
            i += 1;
        }
        i
    }

    /// Looks `name` up.
    pub fn get(&self, name: &[u8]) -> (found: Option<(u64, FileKind)>)
        ensures
            found == dir_get(self@, name@),
    {
        let p = self.position(name);
        if p < self.entries.len() && name_equal(self.entries[p].name.as_slice(), name) {
            Some((self.entries[p].inode, self.entries[p].kind))
        } else {
            None
        }
    }

    /// Puts the entry `name` in, replacing one of the same name.
    pub fn insert(&mut self, name: Vec<u8>, inode: u64, kind: FileKind)
        ensures
            final(self)@ == dir_insert(old(self)@, DirEntryView { name: name@, inode, kind }),
    {
        proof {
            use_type_invariant(&*self);
            lemma_dir_insert_sorted(self@, DirEntryView { name: name@, inode, kind });
        }
        let p = self.position(name.as_slice());
        let replace = p < self.entries.len() && name_equal(
            self.entries[p].name.as_slice(),
            name.as_slice(),
        );
        let ghost before = self@;
        let ghost e = DirEntryView { name: name@, inode, kind };
        let mut entries: Vec<DirEntry> = Vec::new();
        std::mem::swap(&mut entries, &mut self.entries);
        if replace {
            entries.set(p, DirEntry { name, inode, kind });
        } else {
            entries.insert(p, DirEntry { name, inode, kind });
        }
        assert(entries@.map_values(|e: DirEntry| e@) =~= dir_insert(before, e));
        self.entries = entries;
    }

    /// Takes the entry `name` out and tells whether there was one.
    pub fn remove(&mut self, name: &[u8]) -> (removed: bool)
        ensures
            final(self)@ == dir_remove(old(self)@, name@),
            removed == dir_holds(old(self)@, name@),
    {
        proof {
            use_type_invariant(&*self);
            lemma_dir_remove_sorted(self@, name@);
        }
        let p = self.position(name);
        let present = p < self.entries.len() && name_equal(self.entries[p].name.as_slice(), name);
        if !present {
            return false;
        }
        let ghost before = self@;
        let mut entries: Vec<DirEntry> = Vec::new();
        std::mem::swap(&mut entries, &mut self.entries);
        let _ = entries.remove(p);
        assert(entries@.map_values(|e: DirEntry| e@) =~= dir_remove(before, name@));
        self.entries = entries;
        true
    }

    /// Appends `name` behind the last entry if it comes after it in order, and
    /// tells whether it did; a name that would break the order is refused.
    pub fn push_last(&mut self, name: Vec<u8>, inode: u64, kind: FileKind) -> (appended: bool)
        ensures
            appended == (old(self)@.len() == 0 || name_lt(old(self)@.last().name, name@)),
            appended ==> final(self)@ == old(self)@.push(DirEntryView { name: name@, inode, kind }),
            !appended ==> final(self)@ == old(self)@,
    {
        proof {
            use_type_invariant(&*self);
        }
        let n = self.entries.len();
        if n > 0 && !name_less(self.entries[n - 1].name.as_slice(), name.as_slice()) {
            return false;
        }
        let ghost before = self@;
        let ghost e = DirEntryView { name: name@, inode, kind };
        let mut entries: Vec<DirEntry> = Vec::new();
        std::mem::swap(&mut entries, &mut self.entries);
        entries.push(DirEntry { name, inode, kind });
        let ghost after = entries@.map_values(|e: DirEntry| e@);
        assert(after =~= before.push(e));
        assert forall|i: int, j: int| 0 <= i < j < after.len() implies name_lt(
            #[trigger] after[i].name,
            #[trigger] after[j].name,
        ) by {
            if j == n {
                if i < n - 1 {
                    assert(name_lt(before[i].name, before[n - 1].name));
                    lemma_name_lt_transitive(before[i].name, before[n - 1].name, name@);
                }
            } else {
                assert(after[i] == before[i] && after[j] == before[j]);
            }
        }
        self.entries = entries;
        true
    }

    /// An owned copy of the table.
    pub fn duplicate(&self) -> (copy: DirectoryDescriptor)
        ensures
            copy@ == self@,
    {
        proof {
            use_type_invariant(self);
        }
        let mut entries: Vec<DirEntry> = Vec::new();
        let mut i: usize = 0;
        while i < self.entries.len()
            invariant
                i <= self.entries.len(),
                entries@.len() == i,
                forall|j: int| 0 <= j < i ==> (#[trigger] entries@[j])@ == self.entries@[j]@,
            decreases self.entries.len() - i,
        {
            entries.push(self.entries[i].duplicate());
            i += 1;
        }
        assert(entries@.map_values(|e: DirEntry| e@) =~= self@);
        DirectoryDescriptor { entries }
    }
}

/// The name of the first entry, in listing order, that leads to `value`.
pub fn get_key_by_value(map: &DirectoryDescriptor, value: &(u64, FileKind)) -> (key: Option<Vec<u8>>)
    ensures
        ({
            let at = first_with_value(map@, value.0, value.1, 0);
            match key {
                Some(name) => at < map@.len() && name@ == map@[at].name,
                None => at == map@.len(),
            }
        }),
{
    let n = map.len();
    let mut i: usize = 0;
    while i < n
        invariant
            i <= n,
            n == map@.len(),
            first_with_value(map@, value.0, value.1, 0) == first_with_value(
                map@,
                value.0,
                value.1,
                i as int,
            ),
        decreases n - i,
    {
        let e = map.entry(i);
        if e.inode == value.0 && e.kind == value.1 {
            return Some(name_to_vec(e.name.as_slice()));
        }
        i += 1;
    }
    None
}

} // verus!
