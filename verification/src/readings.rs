//! What has been read from the filesystem: the targets of symlinks and the first
//! entries of directories, each under the path it was read at.

use vstd::prelude::*;

verus! {

/// What reading a symlink gave.
#[derive(Clone, Debug, PartialEq, Eq)]
pub enum LinkReading {
    /// The path the link points to.
    Target(String),
    /// The link is missing or could not be read; the text says why.
    Unreadable(String),
}

/// A `LinkReading` with its text as a sequence of characters.
pub enum LinkReadingView {
    Target(Seq<char>),
    Unreadable(Seq<char>),
}

impl View for LinkReading {
    type V = LinkReadingView;

    open spec fn view(&self) -> LinkReadingView {
        match self {
            LinkReading::Target(target) => LinkReadingView::Target(target@),
            LinkReading::Unreadable(detail) => LinkReadingView::Unreadable(detail@),
        }
    }
}

/// What listing a directory gave. Only its first entry is ever looked at.
#[derive(Clone, Debug, PartialEq, Eq)]
pub enum DirReading {
    /// The full path of the first entry.
    FirstEntry(String),
    /// The directory has no entry.
    Empty,
    /// The directory could not be listed; the text says why.
    Unreadable(String),
    /// The directory was listed, but its first entry could not be read; the text
    /// says why.
    EntryUnreadable(String),
}

/// A `DirReading` with its text as a sequence of characters.
pub enum DirReadingView {
    FirstEntry(Seq<char>),
    Empty,
    Unreadable(Seq<char>),
    EntryUnreadable(Seq<char>),
}

impl View for DirReading {
    type V = DirReadingView;

    open spec fn view(&self) -> DirReadingView {
        match self {
            DirReading::FirstEntry(entry) => DirReadingView::FirstEntry(entry@),
            DirReading::Empty => DirReadingView::Empty,
            DirReading::Unreadable(detail) => DirReadingView::Unreadable(detail@),
            DirReading::EntryUnreadable(detail) => DirReadingView::EntryUnreadable(detail@),
        }
    }
}

/// Values under paths. A later value for a path takes the place of an earlier one.
#[derive(Clone, Debug)]
pub struct Table<V> {
    entries: Vec<(String, V)>,
}

/// The map that the entries stand for, a later entry overriding an earlier one.
spec fn table_of<V: View>(entries: Seq<(String, V)>) -> Map<Seq<char>, V::V>
    decreases entries.len(),
{
    if entries.len() == 0 {
        Map::empty()
    } else {
        table_of(entries.drop_last()).insert(entries.last().0@, entries.last().1@)
    }
}

/// A path that no entry from `from` on holds is looked up in the entries before.
proof fn lemma_table_of_prefix<V: View>(entries: Seq<(String, V)>, from: int, path: Seq<char>)
    requires
        0 <= from <= entries.len(),
        forall|k: int| from <= k < entries.len() ==> entries[k].0@ != path,
    ensures
        table_of(entries).contains_key(path) == table_of(entries.take(from)).contains_key(path),
        table_of(entries).contains_key(path) ==> table_of(entries)[path] == table_of(
            entries.take(from),
        )[path],
    decreases entries.len(),
{
    if from == entries.len() {
        assert(entries.take(from) == entries);
    } else {
        lemma_table_of_prefix(entries.drop_last(), from, path);
        assert(entries.drop_last().take(from) == entries.take(from));
    }
}

impl<V: View> View for Table<V> {
    type V = Map<Seq<char>, V::V>;

    closed spec fn view(&self) -> Map<Seq<char>, V::V> {
        table_of(self.entries@)
    }
}

impl<V: View> Table<V> {
    /// The table that holds nothing.
    pub fn new() -> (r: Table<V>)
        ensures
            r@ == Map::<Seq<char>, V::V>::empty(),
    {
        Table { entries: Vec::new() }
    }

    /// Puts `value` under `path`.
    pub fn insert(&mut self, path: &str, value: V)
        ensures
            final(self)@ == old(self)@.insert(path@, value@),
    {
        self.entries.push((path.to_owned(), value));
        assert(self.entries@.drop_last() == old(self).entries@);
    }

    /// The value under `path`, if there is one.
    pub fn get(&self, path: &str) -> (r: Option<&V>)
        ensures
            match r {
                Some(value) => self@.contains_key(path@) && self@[path@] == value@,
                None => !self@.contains_key(path@),
            },
    {
        let key = path.to_owned();
        let mut i: usize = self.entries.len();
        while i > 0
            invariant
                i <= self.entries.len(),
                key@ == path@,
                forall|k: int| i <= k < self.entries.len() ==> self.entries@[k].0@ != path@,
            decreases i,
        {
            i -= 1;
            if self.entries[i].0 == key {
                proof {
                    lemma_table_of_prefix(self.entries@, i + 1, path@);
                    assert(self.entries@.take(i + 1).drop_last() == self.entries@.take(i as int));
                }
                return Some(&self.entries[i].1);
            }
        }
        proof {
            lemma_table_of_prefix(self.entries@, 0, path@);
        }
        None
    }
}

/// Everything that has been read so far.
#[derive(Clone, Debug)]
pub struct Readings {
    /// The symlinks that were read, by their paths.
    pub links: Table<LinkReading>,
    /// The directories that were listed, by their paths.
    pub dirs: Table<DirReading>,
}

/// `Readings` as two maps from paths.
pub struct ReadingsView {
    pub links: Map<Seq<char>, LinkReadingView>,
    pub dirs: Map<Seq<char>, DirReadingView>,
}

impl View for Readings {
    type V = ReadingsView;

    open spec fn view(&self) -> ReadingsView {
        ReadingsView { links: self.links@, dirs: self.dirs@ }
    }
}

impl Readings {
    /// Nothing has been read.
    pub fn new() -> (r: Readings)
        ensures
            r@.links == Map::<Seq<char>, LinkReadingView>::empty(),
            r@.dirs == Map::<Seq<char>, DirReadingView>::empty(),
    {
        Readings { links: Table::new(), dirs: Table::new() }
    }

    /// Notes what reading the symlink at `path` gave.
    pub fn record_link(&mut self, path: &str, reading: LinkReading)
        ensures
            final(self)@.links == old(self)@.links.insert(path@, reading@),
            final(self)@.dirs == old(self)@.dirs,
    {
        self.links.insert(path, reading);
    }

    /// Notes what listing the directory at `path` gave.
    pub fn record_dir(&mut self, path: &str, reading: DirReading)
        ensures
            final(self)@.links == old(self)@.links,
            final(self)@.dirs == old(self)@.dirs.insert(path@, reading@),
    {
        self.dirs.insert(path, reading);
    }
}

} // verus!
