//! Settings, bookmarks, and the book map that records where each book file
//! was unpacked.

use vstd::prelude::*;
use vstd::string::StringExecFns;
use crate::common::filetypes::{file_type_of, BookFileTypes};

verus! {

pub struct SourceSettings {
    source_paths: Vec<String>,
}

impl SourceSettings {
    pub fn new(source_paths: Vec<String>) -> (s: SourceSettings)
        ensures
            s.spec_source_paths() == source_paths@.map_values(|p: String| p@),
    {
        SourceSettings { source_paths }
    }

    pub closed spec fn spec_source_paths(&self) -> Seq<Seq<char>> {
        self.source_paths@.map_values(|p: String| p@)
    }
}

pub struct Settings {
    sources: SourceSettings,
}

impl View for Settings {
    /// The directories scanned for books.
    type V = Seq<Seq<char>>;

    closed spec fn view(&self) -> Seq<Seq<char>> {
        self.sources.spec_source_paths()
    }
}

impl Settings {
    pub fn new(source_settings: SourceSettings) -> (s: Settings)
        ensures
            s@ == source_settings.spec_source_paths(),
    {
        Settings { sources: source_settings }
    }

    pub fn get_get_source_paths(&self) -> (r: &Vec<String>)
        ensures
            r@.map_values(|p: String| p@) == self@,
    {
        &self.sources.source_paths
    }
}

/// Where a reader stopped in a book, and when.
#[derive(Debug, Clone, Copy)]
pub struct BookBookmark {
    offset: usize,
    last_read: usize,
}

impl View for BookBookmark {
    /// The byte offset and the time of reading, in seconds since the epoch.
    type V = (nat, nat);

    closed spec fn view(&self) -> (nat, nat) {
        (self.offset as nat, self.last_read as nat)
    }
}

impl BookBookmark {
    pub fn new(offset: usize, last_read: usize) -> (b: BookBookmark)
        ensures
            b@ == (offset as nat, last_read as nat),
    {
        BookBookmark { offset, last_read }
    }

    pub fn get_offset(&self) -> (n: usize)
        ensures
            n == self@.0,
    {
        self.offset
    }

    pub fn get_last_read(&self) -> (n: usize)
        ensures
            n == self@.1,
    {
        self.last_read
    }
}

/// The bookmark of each key, the first entry for a key counting.
pub open spec fn bookmark_map(entries: Seq<(Seq<char>, (nat, nat))>) -> Map<Seq<char>, (nat, nat)>
    decreases entries.len(),
{
    if entries.len() == 0 {
        Map::empty()
    } else {
        let m = bookmark_map(entries.drop_last());
        if m.contains_key(entries.last().0) {
            m
        } else {
            m.insert(entries.last().0, entries.last().1)
        }
    }
}

/// Seconds since the Unix epoch, by `std::time::SystemTime::now`; 0 when
/// the clock is before the epoch. Trusted, and nothing is stated of the
/// value: it is the time of the call.
#[verifier::external_body]
fn unix_time_secs() -> usize {
    std::time::SystemTime::now().duration_since(std::time::UNIX_EPOCH).unwrap_or_default().as_secs() as usize
}

/// The bookmarks of all books, keyed by book id.
#[derive(Debug)]
pub struct Bookmarks {
    bookmarks: Vec<(String, BookBookmark)>,
}

pub open spec fn entries_view(entries: Seq<(String, BookBookmark)>) -> Seq<(Seq<char>, (nat, nat))> {
    entries.map_values(|e: (String, BookBookmark)| (e.0@, e.1@))
}

impl View for Bookmarks {
    type V = Map<Seq<char>, (nat, nat)>;

    closed spec fn view(&self) -> Map<Seq<char>, (nat, nat)> {
        bookmark_map(entries_view(self.bookmarks@))
    }
}

proof fn lemma_bookmark_map_first(entries: Seq<(Seq<char>, (nat, nat))>, key: Seq<char>, i: int)
    requires
        0 <= i < entries.len(),
        entries[i].0 == key,
        forall|j: int| 0 <= j < i ==> #[trigger] entries[j].0 != key,
    ensures
        bookmark_map(entries).contains_key(key),
        bookmark_map(entries)[key] == entries[i].1,
    decreases entries.len(),
{
    if i < entries.len() - 1 {
        lemma_bookmark_map_first(entries.drop_last(), key, i);
    } else {
        lemma_bookmark_map_absent(entries.drop_last(), key);
    }
}

proof fn lemma_bookmark_map_absent(entries: Seq<(Seq<char>, (nat, nat))>, key: Seq<char>)
    requires
        forall|j: int| 0 <= j < entries.len() ==> #[trigger] entries[j].0 != key,
    ensures
        !bookmark_map(entries).contains_key(key),
    decreases entries.len(),
{
    if entries.len() > 0 {
        lemma_bookmark_map_absent(entries.drop_last(), key);
    }
}

/// Replacing the bookmark of the first entry for `key` changes only that
/// key in the map.
proof fn lemma_bookmark_map_update(
    entries: Seq<(Seq<char>, (nat, nat))>,
    i: int,
    v: (nat, nat),
)
    requires
        0 <= i < entries.len(),
        forall|j: int| 0 <= j < i ==> #[trigger] entries[j].0 != entries[i].0,
    ensures
        bookmark_map(entries.update(i, (entries[i].0, v))) == bookmark_map(entries).insert(
            entries[i].0,
            v,
        ),
    decreases entries.len(),
{
    let key = entries[i].0;
    let e2 = entries.update(i, (key, v));
    if i == entries.len() - 1 {
        assert(e2.drop_last() =~= entries.drop_last());
        lemma_bookmark_map_absent(entries.drop_last(), key);
        assert(bookmark_map(e2) =~= bookmark_map(entries).insert(key, v));
    } else {
        lemma_bookmark_map_update(entries.drop_last(), i, v);
        assert(e2.drop_last() =~= entries.drop_last().update(i, (key, v)));
        lemma_bookmark_map_first(entries.drop_last(), key, i);
        let m = bookmark_map(entries.drop_last());
        let last = entries.last();
        assert(e2.last() == last);
        if last.0 == key {
            assert(bookmark_map(e2) =~= bookmark_map(entries).insert(key, v));
        } else {
            assert(bookmark_map(e2) =~= bookmark_map(entries).insert(key, v));
        }
    }
}

impl Default for Bookmarks {
    fn default() -> (b: Bookmarks)
        ensures
            b@ == Map::<Seq<char>, (nat, nat)>::empty(),
    {
        Bookmarks::new()
    }
}

impl Bookmarks {
    pub fn new() -> (b: Bookmarks)
        ensures
            b@ == Map::<Seq<char>, (nat, nat)>::empty(),
    {
        Bookmarks { bookmarks: Vec::new() }
    }

    /// Bookmarks from `(book id, bookmark)` entries; for a repeated id the
    /// first entry counts.
    pub fn from_entries(entries: Vec<(String, BookBookmark)>) -> (b: Bookmarks)
        ensures
            b@ == bookmark_map(entries_view(entries@)),
    {
        Bookmarks { bookmarks: entries }
    }

    /// All entries, as stored.
    pub fn get_bookmarks(&self) -> (r: &Vec<(String, BookBookmark)>)
        ensures
            bookmark_map(entries_view(r@)) == self@,
    {
        &self.bookmarks
    }

    /// The bookmark of `book_id`, if there is one.
    pub fn get(&self, book_id: &str) -> (r: Option<BookBookmark>)
        ensures
            match r {
                Some(b) => self@.contains_key(book_id@) && self@[book_id@] == b@,
                None => !self@.contains_key(book_id@),
            },
    {
        let ghost es = entries_view(self.bookmarks@);
        let key = String::from_str(book_id);
        for i in 0..self.bookmarks.len()
            invariant
                es == entries_view(self.bookmarks@),
                key@ == book_id@,
                forall|j: int| 0 <= j < i ==> #[trigger] es[j].0 != book_id@,
        {
            proof {
                assert(es[i as int] == (self.bookmarks@[i as int].0@, self.bookmarks@[i as int].1@));
            }
            if self.bookmarks[i].0 == key {
                proof {
                    lemma_bookmark_map_first(es, book_id@, i as int);
                }
                return Some(self.bookmarks[i].1);
            }
        }
        proof {
            lemma_bookmark_map_absent(es, book_id@);
        }
        None
    }

    /// Records that `book_id` was read up to `offset`, now.
    pub fn set_bookmarks(&mut self, book_id: &str, offset: usize)
        ensures
            final(self)@ == old(self)@.insert(book_id@, (offset as nat, final(self)@[book_id@].1)),
            final(self)@.dom() == old(self)@.dom().insert(book_id@),
            final(self)@[book_id@].0 == offset,
            forall|k: Seq<char>|
                k != book_id@ && #[trigger] old(self)@.contains_key(k) ==> final(self)@[k] == old(
                    self,
                )@[k],
    {
        let now = unix_time_secs();
        let b = BookBookmark { offset, last_read: now };
        let ghost es = entries_view(self.bookmarks@);
        let key = String::from_str(book_id);
        let mut i: usize = 0;
        while i < self.bookmarks.len()
            invariant
                es == entries_view(self.bookmarks@),
                self.bookmarks@ == old(self).bookmarks@,
                b@.0 == offset,
                key@ == book_id@,
                i <= self.bookmarks.len(),
                forall|j: int| 0 <= j < i ==> #[trigger] es[j].0 != book_id@,
            decreases self.bookmarks.len() - i,
        {
            proof {
                assert(es[i as int] == (self.bookmarks@[i as int].0@, self.bookmarks@[i as int].1@));
            }
            if self.bookmarks[i].0 == key {
                self.bookmarks.set(i, (key, b));
                proof {
                    lemma_bookmark_map_update(es, i as int, b@);
                    assert(entries_view(self.bookmarks@) =~= es.update(i as int, (book_id@, b@)));
                    assert(self@ == old(self)@.insert(book_id@, b@));
                    assert(self@.dom() =~= old(self)@.dom().insert(book_id@));
                }
                return ;
            }
            i = i + 1;
        }
        self.bookmarks.push((key, b));
        proof {
            lemma_bookmark_map_absent(es, book_id@);
            assert(entries_view(self.bookmarks@).drop_last() =~= es);
        }
    }
}

/// Where a book file was unpacked: its id, its file name without
/// extension, the directory it was unpacked to, its type, and its path.
#[derive(Debug, Clone)]
pub struct BookMap {
    uuid: u128,
    filename: String,
    folderpath: String,
    filetype: String,
    filepath: String,
}

impl View for BookMap {
    type V = (u128, Seq<char>, Seq<char>, Seq<char>, Seq<char>);

    closed spec fn view(&self) -> (u128, Seq<char>, Seq<char>, Seq<char>, Seq<char>) {
        (self.uuid, self.filename@, self.folderpath@, self.filetype@, self.filepath@)
    }
}

impl BookMap {
    pub fn new(uuid: u128, filename: &str, folderpath: &str, filetype: &str, filepath: &str) -> (m:
        BookMap)
        ensures
            m@ == (uuid, filename@, folderpath@, filetype@, filepath@),
    {
        BookMap {
            uuid,
            filename: String::from_str(filename),
            folderpath: String::from_str(folderpath),
            filetype: String::from_str(filetype),
            filepath: String::from_str(filepath),
        }
    }

    pub fn get_uuid(&self) -> (u: u128)
        ensures
            u == self@.0,
    {
        self.uuid
    }

    pub fn get_filename(&self) -> (s: &str)
        ensures
            s@ == self@.1,
    {
        self.filename.as_str()
    }

    pub fn get_folderpath(&self) -> (s: &str)
        ensures
            s@ == self@.2,
    {
        self.folderpath.as_str()
    }

    pub fn get_filetype(&self) -> (t: BookFileTypes)
        ensures
            t == file_type_of(self@.3),
    {
        BookFileTypes::new(self.filetype.as_str())
    }

    pub fn get_filetype_name(&self) -> (s: &str)
        ensures
            s@ == self@.3,
    {
        self.filetype.as_str()
    }

    pub fn get_filepath(&self) -> (s: &str)
        ensures
            s@ == self@.4,
    {
        self.filepath.as_str()
    }
}

} // verus!
