//! Directory operations of the file system: a directory is a list of
//! entries, each a name and an inode number; an entry whose inode number is
//! 0 is unused.
use vstd::prelude::*;

verus! {

/// What a file is, as `fstat` reports it.
#[derive(Copy, Clone, PartialEq, Eq, Structural, Debug)]
pub enum StatMode {
    NULL,
    DIR,
    FILE,
}

impl StatMode {
    pub open spec fn spec_bits(self) -> u32 {
        match self {
            StatMode::NULL => 0,
            StatMode::DIR => 0o040000,
            StatMode::FILE => 0o100000,
        }
    }

    /// The mode bits, as `st_mode` holds them.
    pub fn bits(&self) -> (r: u32)
        ensures
            r == self.spec_bits(),
    {
        match self {
            StatMode::NULL => 0,
            StatMode::DIR => 0o040000,
            StatMode::FILE => 0o100000,
        }
    }
}

/// What `fstat` reports of a file.
#[derive(Debug)]
pub struct Stat {
    pub dev: u64,
    pub ino: u64,
    pub mode: StatMode,
    pub nlink: u32,
    pub _pad: [u64; 7],
}

pub struct DirEntry {
    name: Vec<u8>,
    inode_number: u32,
}

impl DirEntry {
    pub closed spec fn name_view(&self) -> Seq<u8> {
        self.name@
    }

    pub closed spec fn inode_value(&self) -> u32 {
        self.inode_number
    }

    /// The unused entry: empty name, inode 0.
    pub fn empty() -> (r: Self)
        ensures
            r.name_view() == Seq::<u8>::empty(),
            r.inode_value() == 0,
    {
        DirEntry { name: Vec::new(), inode_number: 0 }
    }

    pub fn new(name: &Vec<u8>, inode_number: u32) -> (r: Self)
        ensures
            r.name_view() == name@,
            r.inode_value() == inode_number,
    {
        DirEntry { name: copy_bytes(name), inode_number }
    }

    pub fn name(&self) -> (r: &Vec<u8>)
        ensures
            r@ == self.name_view(),
    {
        &self.name
    }

    pub fn inode_number(&self) -> (r: u32)
        ensures
            r == self.inode_value(),
    {
        self.inode_number
    }
}

fn copy_bytes(v: &Vec<u8>) -> (r: Vec<u8>)
    ensures
        r@ == v@,
{
    let mut r: Vec<u8> = Vec::new();
    let mut i: usize = 0;
    while i < v.len()
        invariant
            i <= v@.len(),
            r@ == v@.subrange(0, i as int),
        decreases v@.len() - i,
    {
        r.push(v[i]);
        i = i + 1;
        assert(r@ =~= v@.subrange(0, i as int));
    }
    assert(v@.subrange(0, i as int) =~= v@);
    r
}

fn same_bytes(a: &Vec<u8>, b: &Vec<u8>) -> (r: bool)
    ensures
        r == (a@ == b@),
{
    if a.len() != b.len() {
        return false;
    }
    let mut i: usize = 0;
    while i < a.len()
        invariant
            a@.len() == b@.len(),
            i <= a@.len(),
            forall|j: int| 0 <= j < i ==> a@[j] == b@[j],
        decreases a@.len() - i,
    {
        if a[i] != b[i] {
            return false;
        }
        i = i + 1;
    }
    assert(a@ =~= b@);
    true
}

/// A directory's entries, in the order that the directory file holds them.
pub struct Directory {
    entries: Vec<DirEntry>,
}

/// `i` is the first entry of `s` named `name`.
pub open spec fn first_named(s: Seq<(Seq<u8>, u32)>, name: Seq<u8>, i: int) -> bool {
    &&& 0 <= i < s.len()
    &&& s[i].0 == name
    &&& forall|j: int| 0 <= j < i ==> #[trigger] s[j].0 != name
}

/// Some entry of `s` is named `name`.
pub open spec fn has_name(s: Seq<(Seq<u8>, u32)>, name: Seq<u8>) -> bool {
    exists|i: int| 0 <= i < s.len() && #[trigger] s[i].0 == name
}

/// The inode that a lookup of `name` in `s` finds: that of the first entry so named.
pub open spec fn lookup(s: Seq<(Seq<u8>, u32)>, name: Seq<u8>) -> Option<u32> {
    if has_name(s, name) {
        let i = choose|i: int| first_named(s, name, i);
        Some(s[i].1)
    } else {
        None
    }
}

/// The entries from index 9 on that refer to inode `id`.
pub open spec fn links_from_nine(s: Seq<(Seq<u8>, u32)>, id: u32) -> nat
    decreases s.len(),
{
    if s.len() <= 9 {
        0
    } else {
        links_from_nine(s.drop_last(), id) + if s.last().1 == id {
            1nat
        } else {
            0nat
        }
    }
}

/// The link count of inode `id` is the number of entries from index 9 on
/// whose inode number is exactly `id`.
pub proof fn lemma_links_count(s: Seq<(Seq<u8>, u32)>, id: u32)
    requires
        s.len() >= 9,
    ensures
        links_from_nine(s, id) == s.subrange(9, s.len() as int).filter(
            |e: (Seq<u8>, u32)| e.1 == id,
        ).len(),
    decreases s.len(),
{
    let pred = |e: (Seq<u8>, u32)| e.1 == id;
    let t = s.subrange(9, s.len() as int);
    reveal(Seq::filter);
    if s.len() == 9 {
        assert(t.len() == 0);
    } else {
        lemma_links_count(s.drop_last(), id);
        assert(t.drop_last() =~= s.drop_last().subrange(9, s.len() - 1));
        assert(t.last() == s.last());
    }
}

/// Making entry `k` unused (inode 0), as an unlink does, takes away the
/// link it gave to its inode and changes the link count of no other inode.
pub proof fn lemma_unused_entry_keeps_links(
    s: Seq<(Seq<u8>, u32)>,
    k: int,
    name: Seq<u8>,
    id: u32,
)
    requires
        0 <= k < s.len(),
        id != 0,
    ensures
        links_from_nine(s.update(k, (name, 0u32)), id) + (if 9 <= k && s[k].1 == id {
            1int
        } else {
            0int
        }) == links_from_nine(s, id),
    decreases s.len(),
{
    let u = s.update(k, (name, 0u32));
    if s.len() > 9 {
        if k == s.len() - 1 {
            assert(u.drop_last() =~= s.drop_last());
        } else {
            lemma_unused_entry_keeps_links(s.drop_last(), k, name, id);
            assert(u.drop_last() =~= s.drop_last().update(k, (name, 0u32)));
        }
    }
}

pub proof fn lemma_first_named_unique(s: Seq<(Seq<u8>, u32)>, name: Seq<u8>, i: int, k: int)
    requires
        first_named(s, name, i),
        first_named(s, name, k),
    ensures
        i == k,
{
    if i < k {
        assert(s[i].0 != name);
    } else if k < i {
        assert(s[k].0 != name);
    }
}

/// When some entry is named `name`, there is a first such entry.
pub proof fn lemma_first_exists(s: Seq<(Seq<u8>, u32)>, name: Seq<u8>)
    requires
        has_name(s, name),
    ensures
        exists|i: int| first_named(s, name, i),
    decreases s.len(),
{
    let d = s.drop_last();
    if has_name(d, name) {
        lemma_first_exists(d, name);
        let i = choose|i: int| first_named(d, name, i);
        assert forall|j: int| 0 <= j < i implies #[trigger] s[j].0 != name by {
            assert(s[j] == d[j]);
        }
        assert(first_named(s, name, i));
    } else {
        let k = choose|k: int| 0 <= k < s.len() && #[trigger] s[k].0 == name;
        if k < s.len() - 1 {
            assert(d[k] == s[k]);
            assert(false);
        }
        assert forall|j: int| 0 <= j < s.len() - 1 implies #[trigger] s[j].0 != name by {
            assert(s[j] == d[j]);
        }
        assert(first_named(s, name, s.len() - 1));
    }
}

/// The first entry named `name` is where a lookup goes.
pub proof fn lemma_lookup_first(s: Seq<(Seq<u8>, u32)>, name: Seq<u8>, i: int)
    requires
        first_named(s, name, i),
    ensures
        lookup(s, name) == Some(s[i].1),
{
    assert(has_name(s, name));
    let k = choose|k: int| first_named(s, name, k);
    lemma_first_named_unique(s, name, i, k);
}

/// A lookup finds what an entry appended under a new name names, and
/// finds for every other name what it found before.
/// A lookup of `name` gives the inode of the earliest entry so named, and
/// `None` exactly when no entry is so named.
pub proof fn lemma_lookup_earliest(s: Seq<(Seq<u8>, u32)>, name: Seq<u8>, j: int)
    ensures
        (lookup(s, name) is None) <==> (forall|k: int| 0 <= k < s.len() ==> s[k].0 != name),
        0 <= j < s.len() && s[j].0 == name && (forall|k: int| 0 <= k < j ==> s[k].0 != name)
            ==> lookup(s, name) == Some(s[j].1),
{
    if 0 <= j < s.len() && s[j].0 == name && (forall|k: int| 0 <= k < j ==> s[k].0 != name) {
        assert(first_named(s, name, j));
        lemma_lookup_first(s, name, j);
    }
    if !(forall|k: int| 0 <= k < s.len() ==> s[k].0 != name) {
        let k = choose|k: int| 0 <= k < s.len() && s[k].0 == name;
        assert(has_name(s, name));
    }
}

pub proof fn lemma_lookup_after_append(s: Seq<(Seq<u8>, u32)>, name: Seq<u8>, id: u32, other: Seq<u8>)
    requires
        !has_name(s, name),
    ensures
        lookup(s.push((name, id)), name) == Some(id),
        other != name ==> lookup(s.push((name, id)), other) == lookup(s, other),
{
    let t = s.push((name, id));
    assert(t[s.len() as int].0 == name);
    assert forall|j: int| 0 <= j < s.len() implies #[trigger] t[j].0 != name by {
        assert(t[j] == s[j]);
    }
    lemma_lookup_first(t, name, s.len() as int);
    if other != name {
        if has_name(s, other) {
            lemma_first_exists(s, other);
            let i = choose|i: int| first_named(s, other, i);
            assert forall|j: int| 0 <= j < i implies #[trigger] t[j].0 != other by {
                assert(t[j] == s[j]);
            }
            assert(first_named(t, other, i));
            lemma_lookup_first(s, other, i);
            lemma_lookup_first(t, other, i);
        } else {
            assert forall|j: int| 0 <= j < t.len() implies #[trigger] t[j].0 != other by {
                if j < s.len() {
                    assert(t[j] == s[j]);
                }
            }
            assert(!has_name(t, other));
        }
    }
}

/// When one entry alone bears a name, other than the empty one, a lookup of
/// that name finds nothing once that entry is made unused.
pub proof fn lemma_lookup_after_clear(s: Seq<(Seq<u8>, u32)>, name: Seq<u8>, i: int)
    requires
        0 <= i < s.len(),
        s[i].0 == name,
        name != Seq::<u8>::empty(),
        forall|j: int| 0 <= j < s.len() && j != i ==> #[trigger] s[j].0 != name,
    ensures
        lookup(s.update(i, (Seq::<u8>::empty(), 0u32)), name) is None,
{
    let t = s.update(i, (Seq::<u8>::empty(), 0u32));
    assert forall|j: int| 0 <= j < t.len() implies #[trigger] t[j].0 != name by {
        if j != i {
            assert(t[j] == s[j]);
        }
    }
    assert(!has_name(t, name));
}

impl View for Directory {
    type V = Seq<(Seq<u8>, u32)>;

    /// The entries: name and inode number of each.
    closed spec fn view(&self) -> Seq<(Seq<u8>, u32)> {
        self.entries@.map_values(|e: DirEntry| (e.name_view(), e.inode_value()))
    }
}

impl Directory {
    pub fn new(entries: Vec<DirEntry>) -> (r: Self)
        ensures
            r@ == entries@.map_values(|e: DirEntry| (e.name_view(), e.inode_value())),
    {
        Directory { entries }
    }

    pub fn entries(&self) -> (r: &Vec<DirEntry>)
        ensures
            self@ == r@.map_values(|e: DirEntry| (e.name_view(), e.inode_value())),
    {
        &self.entries
    }

    /// The inode of the first entry named `name`.
    pub fn find_inode_id(&self, name: &Vec<u8>) -> (r: Option<u32>)
        ensures
            r == lookup(self@, name@),
    {
        let mut i: usize = 0;
        while i < self.entries.len()
            invariant
                i <= self@.len(),
                self@.len() == self.entries@.len(),
                forall|j: int| 0 <= j < i ==> #[trigger] self@[j].0 != name@,
            decreases self@.len() - i,
        {
            if same_bytes(self.entries[i].name(), name) {
                proof {
                    lemma_lookup_first(self@, name@, i as int);
                }
                return Some(self.entries[i].inode_number());
            }
            i = i + 1;
        }
        proof {
            assert(!has_name(self@, name@));
        }
        None
    }

    /// Appends an entry naming inode `id`.
    fn push_entry(&mut self, name: &Vec<u8>, id: u32)
        ensures
            final(self)@ == old(self)@.push((name@, id)),
    {
        self.entries.push(DirEntry::new(name, id));
        proof {
            assert(self@ =~= old(self)@.push((name@, id)));
        }
    }

    /// Makes a new file named `name`: `None` when the name is taken, and
    /// then no inode is allocated. Else `alloc_inode` takes an inode from the
    /// allocator state `inodes` and gives the state after it; that state
    /// becomes `inodes`, and a new entry names the inode.
    pub fn create<S, A: Fn(&S) -> (S, u32)>(
        &mut self,
        name: &Vec<u8>,
        inodes: &mut S,
        alloc_inode: A,
    ) -> (r: Option<u32>)
        requires
            call_requires(alloc_inode, (&*old(inodes),)),
        ensures
            has_name(old(self)@, name@) ==> r is None && final(self)@ == old(self)@ && *final(inodes)
                == *old(inodes),
            !has_name(old(self)@, name@) ==> (r matches Some(id) && call_ensures(
                alloc_inode,
                (&*old(inodes),),
                (*final(inodes), id),
            ) && final(self)@ == old(self)@.push((name@, id))),
    {
        if self.find_inode_id(name).is_some() {
            return None;
        }
        let (next, new_inode_id) = alloc_inode(&*inodes);
        *inodes = next;
        self.push_entry(name, new_inode_id);
        Some(new_inode_id)
    }

    /// Adds the name `new_name` for the inode named `old_name`: an error when
    /// `old_name` is not found or `new_name` is taken.
    pub fn link(&mut self, old_name: &Vec<u8>, new_name: &Vec<u8>) -> (r: Result<(), ()>)
        ensures
            !has_name(old(self)@, old_name@) || has_name(old(self)@, new_name@) ==> r is Err
                && final(self)@ == old(self)@,
            has_name(old(self)@, old_name@) && !has_name(old(self)@, new_name@) ==> r is Ok
                && final(self)@ == old(self)@.push(
                (new_name@, lookup(old(self)@, old_name@)->0),
            ),
    {
        let inode_id = match self.find_inode_id(old_name) {
            Some(id) => id,
            None => return Err(()),
        };
        if self.find_inode_id(new_name).is_some() {
            return Err(());
        }
        self.push_entry(new_name, inode_id);
        Ok(())
    }

    /// Removes the name `name`: the first entry so named becomes unused. An
    /// error when no entry is so named, or when that entry is already unused.
    pub fn unlink(&mut self, name: &Vec<u8>) -> (r: Result<(), ()>)
        ensures
            !has_name(old(self)@, name@) ==> r is Err && final(self)@ == old(self)@,
            forall|i: int|
                #[trigger] first_named(old(self)@, name@, i) ==> {
                    &&& old(self)@[i].1 == 0 ==> r is Err && final(self)@ == old(self)@
                    &&& old(self)@[i].1 != 0 ==> r is Ok && final(self)@ == old(self)@.update(
                        i,
                        (Seq::<u8>::empty(), 0u32),
                    )
                },
    {
        let mut i: usize = 0;
        while i < self.entries.len()
            invariant
                i <= self@.len(),
                self@.len() == self.entries@.len(),
                self@ == old(self)@,
                forall|j: int| 0 <= j < i ==> #[trigger] self@[j].0 != name@,
            decreases self@.len() - i,
        {
            if same_bytes(self.entries[i].name(), name) {
                proof {
                    assert(old(self)@[i as int].0 == name@);
                    assert forall|k: int| #[trigger] first_named(old(self)@, name@, k) implies k
                        == i by {
                        lemma_first_named_unique(old(self)@, name@, i as int, k);
                    }
                }
                if self.entries[i].inode_number() == 0 {
                    return Err(());
                } else {
                    self.entries.set(i, DirEntry::empty());
                    proof {
                        assert(self@ =~= old(self)@.update(i as int, (Seq::<u8>::empty(), 0u32)));
                    }
                    return Ok(());
                }
            }
            i = i + 1;
        }
        proof {
            assert forall|k: int| #[trigger] first_named(old(self)@, name@, k) implies false by {
                assert(old(self)@[k].0 == name@);
            }
        }
        Err(())
    }

    /// The names of all entries, in order.
    pub fn ls(&self) -> (r: Vec<Vec<u8>>)
        ensures
            r@.len() == self@.len(),
            forall|i: int| 0 <= i < self@.len() ==> (#[trigger] r@[i])@ == self@[i].0,
    {
        let mut v: Vec<Vec<u8>> = Vec::new();
        let mut i: usize = 0;
        while i < self.entries.len()
            invariant
                i <= self@.len(),
                self@.len() == self.entries@.len(),
                v@.len() == i,
                forall|j: int| 0 <= j < i ==> (#[trigger] v@[j])@ == self@[j].0,
            decreases self@.len() - i,
        {
            v.push(copy_bytes(self.entries[i].name()));
            i = i + 1;
        }
        v
    }

    /// The status of the file with inode `file_inode_id`: inode 0 is the
    /// root directory, one link; any other is a file, with as many links as
    /// entries from index 9 on name it.
    pub fn get_stat(&self, file_inode_id: u32) -> (r: Stat)
        requires
            self@.len() <= u32::MAX,
        ensures
            r.dev == 0,
            forall|i: int| 0 <= i < 7 ==> r._pad[i] == 0,
            file_inode_id == 0 ==> r.ino == 0 && r.mode == StatMode::DIR && r.nlink == 1,
            file_inode_id != 0 ==> r.ino == file_inode_id && r.mode == StatMode::FILE && r.nlink
                == links_from_nine(self@, file_inode_id),
    {
        if file_inode_id == 0 {
            return Stat { dev: 0, ino: 0, mode: StatMode::DIR, nlink: 1, _pad: [0;7] };
        }
        let mut nlink: u32 = 0;
        let mut i: usize = 9;
        if self.entries.len() > 9 {
            assert(self@.take(9).len() <= 9);
            while i < self.entries.len()
                invariant
                    9 <= i <= self@.len(),
                    self@.len() == self.entries@.len(),
                    self@.len() <= u32::MAX,
                    nlink == links_from_nine(self@.take(i as int), file_inode_id),
                    nlink <= i,
                decreases self@.len() - i,
            {
                assert(self@.take(i as int + 1).drop_last() =~= self@.take(i as int));
                if self.entries[i].inode_number() == file_inode_id {
                    nlink = nlink + 1;
                }
                i = i + 1;
            }
            assert(self@.take(i as int) =~= self@);
        }
        Stat { dev: 0, ino: file_inode_id as u64, mode: StatMode::FILE, nlink, _pad: [0;7] }
    }
}

} // verus!
