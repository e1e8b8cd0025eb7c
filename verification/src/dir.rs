use vstd::prelude::*;

verus! {

/// A directory entry: a name and the inode it refers to.
pub struct DirEntry {
    /// The name of the entry.
    pub name: String,
    /// The inode the entry refers to.
    pub inode_id: u32,
}

/// The entries of a directory, in the order they are stored.
pub struct Directory {
    /// The stored entries.
    pub entries: Vec<DirEntry>,
}

/// One step of creating a file.
#[derive(Clone, Copy, PartialEq, Eq, Structural, Debug)]
pub enum CreateStep {
    /// The call starts.
    Request,
    /// The file system has set aside this new inode for the file.
    Allocated(u32),
}

/// What the file system is to do next when creating a file.
#[derive(Clone, Copy, PartialEq, Eq, Structural, Debug)]
pub enum CreateAction {
    /// Set aside a new inode, then go on with `CreateStep::Allocated`.
    AllocateInode,
    /// The call is over and gives this inode (`None` when the name is taken).
    Done(Option<u32>),
}

/// An entry seen as its name and inode number.
pub type EntryView = (Seq<char>, u32);

impl View for Directory {
    type V = Seq<EntryView>;

    open spec fn view(&self) -> Seq<EntryView> {
        self.entries@.map_values(|e: DirEntry| (e.name@, e.inode_id))
    }
}

/// Entry `i` is the first one called `name`.
pub open spec fn first_named(s: Seq<EntryView>, name: Seq<char>, i: int) -> bool {
    &&& 0 <= i < s.len()
    &&& s[i].0 == name
    &&& forall|j: int| 0 <= j < i ==> #[trigger] s[j].0 != name
}

/// The position of the first entry called `name`, if there is one.
pub open spec fn name_index(s: Seq<EntryView>, name: Seq<char>) -> Option<int> {
    if exists|i: int| first_named(s, name, i) {
        Some(choose|i: int| first_named(s, name, i))
    } else {
        None
    }
}

/// The inode that the first entry called `name` refers to, if there is one.
pub open spec fn lookup(s: Seq<EntryView>, name: Seq<char>) -> Option<u32> {
    match name_index(s, name) {
        Some(i) => Some(s[i].1),
        None => None,
    }
}

/// The number of entries that refer to inode `id`: its hard links.
pub open spec fn links(s: Seq<EntryView>, id: u32) -> nat
    decreases s.len(),
{
    if s.len() == 0 {
        0
    } else {
        links(s.drop_last(), id) + if s.last().1 == id {
            1nat
        } else {
            0nat
        }
    }
}

/// The entries with entry `i` taken out: the last entry moves into its
/// place.
pub open spec fn remove_entry(s: Seq<EntryView>, i: int) -> Seq<EntryView> {
    s.update(i, s.last()).drop_last()
}

/// The entries after a hard link `new_name` to what `old_name` refers to.
pub open spec fn after_link(s: Seq<EntryView>, old_name: Seq<char>, new_name: Seq<char>) -> Seq<
    EntryView,
> {
    match lookup(s, old_name) {
        Some(id) => s.push((new_name, id)),
        None => s,
    }
}

/// The entries after removing the first entry called `name`.
pub open spec fn after_unlink(s: Seq<EntryView>, name: Seq<char>) -> Seq<EntryView> {
    match name_index(s, name) {
        Some(i) => remove_entry(s, i),
        None => s,
    }
}

/// What removing the first entry called `name` returns: -1 when there is
/// none, else the number of links its inode keeps.
pub open spec fn unlink_result(s: Seq<EntryView>, name: Seq<char>) -> int {
    match name_index(s, name) {
        Some(i) => links(s, s[i].1) - 1,
        None => -1,
    }
}

/// The inode whose last link goes when the first entry called `name` is
/// removed, if that entry was its last link.
pub open spec fn released_inode(s: Seq<EntryView>, name: Seq<char>) -> Option<u32> {
    match name_index(s, name) {
        Some(i) => if links(s, s[i].1) == 1 {
            Some(s[i].1)
        } else {
            None
        },
        None => None,
    }
}

proof fn lemma_first_named_unique(s: Seq<EntryView>, name: Seq<char>, i: int, j: int)
    requires
        first_named(s, name, i),
        first_named(s, name, j),
    ensures
        i == j,
{
}

/// Each entry counts as one link of its inode.
pub proof fn lemma_links_positive(s: Seq<EntryView>, i: int)
    requires
        0 <= i < s.len(),
    ensures
        links(s, s[i].1) >= 1,
        links(s, s[i].1) <= s.len(),
    decreases s.len(),
{
    lemma_links_bounded(s, s[i].1);
    if i < s.len() - 1 {
        lemma_links_positive(s.drop_last(), i);
    }
}

/// A directory holds no more links to an inode than it has entries.
pub proof fn lemma_links_bounded(s: Seq<EntryView>, id: u32)
    ensures
        links(s, id) <= s.len(),
    decreases s.len(),
{
    if s.len() > 0 {
        lemma_links_bounded(s.drop_last(), id);
    }
}

/// Replacing one entry moves the link counts by that entry alone.
pub proof fn lemma_links_update(s: Seq<EntryView>, i: int, v: EntryView, id: u32)
    requires
        0 <= i < s.len(),
    ensures
        links(s.update(i, v), id) + (if s[i].1 == id {
            1int
        } else {
            0int
        }) == links(s, id) + (if v.1 == id {
            1int
        } else {
            0int
        }),
    decreases s.len(),
{
    let u = s.update(i, v);
    if i == s.len() - 1 {
        assert(u.drop_last() =~= s.drop_last());
    } else {
        assert(u.drop_last() =~= s.drop_last().update(i, v));
        lemma_links_update(s.drop_last(), i, v, id);
    }
}

/// Adding an entry for inode `e.1` adds one link to that inode alone.
pub proof fn lemma_links_push(s: Seq<EntryView>, e: EntryView, id: u32)
    ensures
        links(s.push(e), id) == links(s, id) + if e.1 == id {
            1nat
        } else {
            0nat
        },
{
    assert(s.push(e).drop_last() =~= s);
}

/// Taking out entry `i` removes one link of its inode and no other.
pub proof fn lemma_links_remove(s: Seq<EntryView>, i: int, id: u32)
    requires
        0 <= i < s.len(),
    ensures
        links(remove_entry(s, i), id) + (if s[i].1 == id {
            1int
        } else {
            0int
        }) == links(s, id),
{
    let u = s.update(i, s.last());
    lemma_links_update(s, i, s.last(), id);
    assert(u.last() == s.last());
}

/// When some entry is called `name`, a first such entry exists.
pub proof fn lemma_named_has_first(s: Seq<EntryView>, name: Seq<char>, k: int)
    requires
        0 <= k < s.len(),
        s[k].0 == name,
    ensures
        name_index(s, name) is Some,
        first_named(s, name, name_index(s, name)->0),
    decreases k,
{
    if forall|j: int| 0 <= j < k ==> #[trigger] s[j].0 != name {
        assert(first_named(s, name, k));
    } else {
        let j = choose|j: int| 0 <= j < k && #[trigger] s[j].0 == name;
        lemma_named_has_first(s, name, j);
    }
}

/// With no entry called `name`, no entry is found under that name.
pub proof fn lemma_absent_name(s: Seq<EntryView>, name: Seq<char>)
    requires
        name_index(s, name) is None,
    ensures
        forall|j: int| 0 <= j < s.len() ==> #[trigger] s[j].0 != name,
{
    assert forall|j: int| 0 <= j < s.len() implies #[trigger] s[j].0 != name by {
        if s[j].0 == name {
            lemma_named_has_first(s, name, j);
        }
    }
}

/// An entry added under a name that no entry had is the one found under
/// that name.
proof fn lemma_push_fresh_name(s: Seq<EntryView>, name: Seq<char>, id: u32)
    requires
        name_index(s, name) is None,
    ensures
        name_index(s.push((name, id)), name) == Some(s.len() as int),
        lookup(s.push((name, id)), name) == Some(id),
{
    let t = s.push((name, id));
    lemma_absent_name(s, name);
    assert(first_named(t, name, s.len() as int));
    let k = choose|k: int| first_named(t, name, k);
    lemma_first_named_unique(t, name, s.len() as int, k);
}

/// A new link to an existing entry's inode adds one link to that inode and
/// leaves the count of every other inode alone.
pub proof fn lemma_link_adds_one_link(
    s: Seq<EntryView>,
    old_name: Seq<char>,
    new_name: Seq<char>,
    id: u32,
)
    requires
        lookup(s, old_name) is Some,
    ensures
        ({
            let target = lookup(s, old_name)->0;
            links(after_link(s, old_name, new_name), id) == links(s, id) + if id == target {
                1nat
            } else {
                0nat
            }
        }),
{
    lemma_links_push(s, (new_name, lookup(s, old_name)->0), id);
}

/// Removing an entry takes one link from its inode, leaves the count of every
/// other inode alone, and returns the links its inode keeps.
pub proof fn lemma_unlink_drops_one_link(s: Seq<EntryView>, name: Seq<char>, id: u32)
    requires
        name_index(s, name) is Some,
    ensures
        ({
            let i = name_index(s, name)->0;
            &&& links(after_unlink(s, name), id) + (if id == s[i].1 {
                1int
            } else {
                0int
            }) == links(s, id)
            &&& unlink_result(s, name) == links(after_unlink(s, name), s[i].1)
            &&& unlink_result(s, name) >= 0
        }),
{
    let i = name_index(s, name)->0;
    let k = choose|k: int| first_named(s, name, k);
    assert(first_named(s, name, k));
    lemma_links_remove(s, i, id);
    lemma_links_remove(s, i, s[i].1);
    lemma_links_positive(s, i);
}

/// A hard link under a name that was free, removed again, gives back the
/// directory as it was; the inode keeps its links.
pub proof fn lemma_unlink_undoes_link(s: Seq<EntryView>, old_name: Seq<char>, new_name: Seq<char>)
    requires
        lookup(s, old_name) is Some,
        name_index(s, new_name) is None,
    ensures
        after_unlink(after_link(s, old_name, new_name), new_name) == s,
        unlink_result(after_link(s, old_name, new_name), new_name) == links(
            s,
            lookup(s, old_name)->0,
        ),
        released_inode(after_link(s, old_name, new_name), new_name) is None,
{
    let id = lookup(s, old_name)->0;
    let t = s.push((new_name, id));
    lemma_push_fresh_name(s, new_name, id);
    assert(remove_entry(t, s.len() as int) =~= s);
    lemma_links_push(s, (new_name, id), id);
    let k = choose|k: int| first_named(s, old_name, k);
    assert(first_named(s, old_name, k));
    lemma_links_positive(s, k);
}

/// A file created under a free name is found under that name.
pub proof fn lemma_create_then_find(s: Seq<EntryView>, name: Seq<char>, id: u32)
    requires
        lookup(s, name) is None,
    ensures
        lookup(s.push((name, id)), name) == Some(id),
{
    lemma_push_fresh_name(s, name, id);
}

/// A file created under a free name on an inode that nothing linked to,
/// removed again, gives back the directory as it was; removing it returns 0
/// and hands back its inode, whose last link it was.
pub proof fn lemma_unlink_undoes_create(s: Seq<EntryView>, name: Seq<char>, id: u32)
    requires
        lookup(s, name) is None,
        links(s, id) == 0,
    ensures
        after_unlink(s.push((name, id)), name) == s,
        unlink_result(s.push((name, id)), name) == 0,
        released_inode(s.push((name, id)), name) == Some(id),
{
    let t = s.push((name, id));
    lemma_push_fresh_name(s, name, id);
    assert(remove_entry(t, s.len() as int) =~= s);
    lemma_links_push(s, (name, id), id);
}

impl Directory {
    /// Gives the position of the first entry called `name`.
    fn name_position(&self, name: &str) -> (r: Option<usize>)
        ensures
            match r {
                Some(i) => name_index(self@, name@) == Some(i as int) && i < self@.len(),
                None => name_index(self@, name@) is None,
            },
    {
        let key = name.to_owned();
        let mut i: usize = 0;
        while i < self.entries.len()
            invariant
                key@ == name@,
                i <= self@.len(),
                self@.len() == self.entries@.len(),
                forall|j: int| 0 <= j < i ==> #[trigger] self@[j].0 != name@,
            decreases self.entries@.len() - i,
        {
            if self.entries[i].name == key {
                proof {
                    assert(first_named(self@, name@, i as int));
                    let k = choose|k: int| first_named(self@, name@, k);
                    lemma_first_named_unique(self@, name@, i as int, k);
                }
                return Some(i);
            }
            i = i + 1;
        }
        None
    }

    /// Gives the inode that the first entry called `name` refers to.
    pub fn find_inode_id(&self, name: &str) -> (r: Option<u32>)
        ensures
            r == lookup(self@, name@),
    {
        match self.name_position(name) {
            Some(i) => Some(self.entries[i].inode_id),
            None => None,
        }
    }

    /// Counts the entries that refer to inode `inode_id`.
    pub fn nlink(&self, inode_id: u32) -> (r: usize)
        ensures
            r == links(self@, inode_id),
    {
        let mut number: usize = 0;
        let mut i: usize = 0;
        while i < self.entries.len()
            invariant
                i <= self@.len(),
                self@.len() == self.entries@.len(),
                number == links(self@.take(i as int), inode_id),
            decreases self.entries@.len() - i,
        {
            proof {
                assert(self@.take(i as int + 1).drop_last() =~= self@.take(i as int));
                lemma_links_bounded(self@.take(i as int), inode_id);
            }
            if self.entries[i].inode_id == inode_id {
                number = number + 1;
            }
            i = i + 1;
        }
        assert(self@.take(i as int) =~= self@);
        number
    }

    /// Adds entry `new_name` for the inode that `old_name` refers to; does
    /// nothing when there is no entry `old_name`.
    pub fn linkat(&mut self, old_name: &str, new_name: &str)
        ensures
            final(self)@ == after_link(old(self)@, old_name@, new_name@),
    {
        match self.find_inode_id(old_name) {
            Some(id) => {
                let entry = DirEntry { name: new_name.to_owned(), inode_id: id };
                self.entries.push(entry);
                assert(self@ =~= old(self)@.push((new_name@, id)));
            },
            None => {},
        }
    }

    /// Removes the first entry called `name`, the last entry taking its
    /// place. Gives -1 when there is no such entry, else the number of links
    /// its inode keeps, together with that inode when it has no link left.
    pub fn unlinkat(&mut self, name: &str) -> (r: (isize, Option<u32>))
        requires
            old(self)@.len() <= isize::MAX,
        ensures
            final(self)@ == after_unlink(old(self)@, name@),
            r.0 == unlink_result(old(self)@, name@),
            r.1 == released_inode(old(self)@, name@),
    {
        match self.name_position(name) {
            None => (-1, None),
            Some(idx) => {
                let id = self.entries[idx].inode_id;
                let link_number = self.nlink(id);
                proof {
                    lemma_links_positive(self@, idx as int);
                }
                let _removed = self.entries.swap_remove(idx);
                assert(self@ =~= remove_entry(old(self)@, idx as int));
                let release = if link_number == 1 {
                    Some(id)
                } else {
                    None
                };
                ((link_number - 1) as isize, release)
            },
        }
    }

    /// Creates a file `name`, one step at a time: the request gives
    /// `Done(None)` when `name` is taken, else asks the file system for a new
    /// inode; once it has one, the entry `name` for it is added and the call
    /// gives that inode.
    pub fn create(&mut self, name: &str, step: CreateStep) -> (r: CreateAction)
        ensures
            match step {
                CreateStep::Request => final(self)@ == old(self)@ && r == if lookup(
                    old(self)@,
                    name@,
                ) is Some {
                    CreateAction::Done(None)
                } else {
                    CreateAction::AllocateInode
                },
                CreateStep::Allocated(id) => final(self)@ == old(self)@.push((name@, id)) && r
                    == CreateAction::Done(Some(id)),
            },
    {
        match step {
            CreateStep::Request => {
                if self.find_inode_id(name).is_some() {
                    CreateAction::Done(None)
                } else {
                    CreateAction::AllocateInode
                }
            },
            CreateStep::Allocated(new_inode_id) => {
                let entry = DirEntry { name: name.to_owned(), inode_id: new_inode_id };
                self.entries.push(entry);
                assert(self@ =~= old(self)@.push((name@, new_inode_id)));
                CreateAction::Done(Some(new_inode_id))
            },
        }
    }

    /// Lists the names of the entries, in order.
    pub fn ls(&self) -> (r: Vec<String>)
        ensures
            r@.len() == self@.len(),
            forall|i: int| 0 <= i < r@.len() ==> #[trigger] r@[i]@ == self@[i].0,
    {
        let mut v: Vec<String> = Vec::new();
        let mut i: usize = 0;
        while i < self.entries.len()
            invariant
                i <= self@.len(),
                self@.len() == self.entries@.len(),
                v@.len() == i,
                forall|j: int| 0 <= j < i ==> #[trigger] v@[j]@ == self@[j].0,
            decreases self.entries@.len() - i,
        {
            let name = self.entries[i].name.clone();
            v.push(name);
            i = i + 1;
        }
        v
    }
}

} // verus!
