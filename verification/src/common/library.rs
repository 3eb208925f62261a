//! The library of book files: those the book map already records, and
//! those found in the source directories.

use vstd::prelude::*;
use vstd::string::StringExecFns;
use crate::common::filetypes::{file_type_of, BookFileTypes};
use crate::common::settings::BookMap;
use crate::parsers::book_ids::book_map_view;
use crate::text::push_char;

verus! {

/// Index of the last `.` of `s`, or -1.
pub open spec fn last_dot(s: Seq<char>) -> int
    decreases s.len(),
{
    if s.len() == 0 {
        -1
    } else if s.last() == '.' {
        s.len() - 1
    } else {
        last_dot(s.drop_last())
    }
}

/// The extension of a file name, as `Path::extension` documents it: none
/// without a `.`, none for a name that starts with its only `.`, else what
/// follows the last `.`.
pub open spec fn extension_of(name: Seq<char>) -> Option<Seq<char>> {
    let i = last_dot(name);
    if i <= 0 {
        None
    } else {
        Some(name.subrange(i + 1, name.len() as int))
    }
}

/// The extension of file name `name` (see [`extension_of`]).
pub fn file_extension(name: &str) -> (r: Option<String>)
    ensures
        match r {
            Some(e) => extension_of(name@) == Some(e@),
            None => extension_of(name@) is None,
        },
{
    broadcast use vstd::string::group_string_axioms;

    let mut after = String::new();
    let mut has_dot = false;
    let mut dot_at_start = false;
    let mut first = true;
    let ghost mut seen: Seq<char> = Seq::empty();
    for c in it: name.chars()
        invariant
            it.seq() == name@,
            seen == name@.take(it.index()),
            first == (seen.len() == 0),
            has_dot == (last_dot(seen) >= 0),
            last_dot(seen) < seen.len(),
            has_dot ==> (dot_at_start == (last_dot(seen) == 0) && after@ == seen.subrange(
                last_dot(seen) + 1,
                seen.len() as int,
            )),
    {
        let ghost prev = seen;
        proof {
            seen = seen.push(c);
            assert(seen.drop_last() =~= prev);
            assert(name@.take(it.index() + 1) =~= seen);
        }
        if c == '.' {
            has_dot = true;
            dot_at_start = first;
            after = String::new();
            proof {
                assert(seen.subrange(last_dot(seen) + 1, seen.len() as int) =~= Seq::<char>::empty());
            }
        } else if has_dot {
            proof {
                assert(seen.subrange(last_dot(seen) + 1, seen.len() as int) =~= after@.push(c));
            }
            push_char(&mut after, c);
        }
        first = false;
    }
    proof {
        assert(name@.take(name@.len() as int) =~= name@);
    }
    if has_dot && !dot_at_start {
        Some(after)
    } else {
        None
    }
}

/// Path to type for the books the map records; a later entry for the same
/// path wins.
pub open spec fn known_books(entries: Seq<(u128, Seq<char>, Seq<char>, Seq<char>, Seq<char>)>) -> Map<
    Seq<char>,
    BookFileTypes,
>
    decreases entries.len(),
{
    if entries.len() == 0 {
        Map::empty()
    } else {
        known_books(entries.drop_last()).insert(entries.last().4, file_type_of(entries.last().3))
    }
}

/// The books after scanning `files`, `(path, file name)` pairs in the order
/// found: a path already known is kept as it is; a file with a non-empty
/// extension is added with the type its extension names; other files are
/// passed over.
pub open spec fn scan_books(
    known: Map<Seq<char>, BookFileTypes>,
    files: Seq<(Seq<char>, Seq<char>)>,
) -> Map<Seq<char>, BookFileTypes>
    decreases files.len(),
{
    if files.len() == 0 {
        known
    } else {
        let m = scan_books(known, files.drop_last());
        let (path, name) = files.last();
        if m.contains_key(path) {
            m
        } else {
            match extension_of(name) {
                Some(ext) => if ext.len() > 0 {
                    m.insert(path, file_type_of(ext))
                } else {
                    m
                },
                None => m,
            }
        }
    }
}

/// The map of `pairs`, the first pair for a path counting.
pub open spec fn first_wins(pairs: Seq<(Seq<char>, BookFileTypes)>) -> Map<Seq<char>, BookFileTypes>
    decreases pairs.len(),
{
    if pairs.len() == 0 {
        Map::empty()
    } else {
        let m = first_wins(pairs.drop_last());
        if m.contains_key(pairs.last().0) {
            m
        } else {
            m.insert(pairs.last().0, pairs.last().1)
        }
    }
}

pub open spec fn pairs_view(v: Seq<(String, BookFileTypes)>) -> Seq<(Seq<char>, BookFileTypes)> {
    v.map_values(|p: (String, BookFileTypes)| (p.0@, p.1))
}

/// No path occurs twice in `pairs`.
pub open spec fn distinct_paths(pairs: Seq<(Seq<char>, BookFileTypes)>) -> bool {
    forall|i: int, j: int| 0 <= i < j < pairs.len() ==> #[trigger] pairs[i].0 != #[trigger] pairs[j].0
}

proof fn lemma_first_wins_contains(pairs: Seq<(Seq<char>, BookFileTypes)>, k: Seq<char>)
    ensures
        first_wins(pairs).contains_key(k) <==> exists|i: int|
            0 <= i < pairs.len() && #[trigger] pairs[i].0 == k,
    decreases pairs.len(),
{
    if pairs.len() > 0 {
        lemma_first_wins_contains(pairs.drop_last(), k);
        if first_wins(pairs.drop_last()).contains_key(k) {
            let i = choose|i: int| 0 <= i < pairs.drop_last().len() && #[trigger] pairs.drop_last()[i].0 == k;
            assert(pairs[i].0 == k);
        }
        if exists|i: int| 0 <= i < pairs.len() && #[trigger] pairs[i].0 == k {
            let i = choose|i: int| 0 <= i < pairs.len() && #[trigger] pairs[i].0 == k;
            if i < pairs.len() - 1 {
                assert(pairs.drop_last()[i].0 == k);
            }
        }
    }
}

/// `known_books` of `e` followed by the entries `rest`.
proof fn lemma_known_books_prepend(
    e: (u128, Seq<char>, Seq<char>, Seq<char>, Seq<char>),
    rest: Seq<(u128, Seq<char>, Seq<char>, Seq<char>, Seq<char>)>,
)
    ensures
        known_books(seq![e] + rest) == if known_books(rest).contains_key(e.4) {
            known_books(rest)
        } else {
            known_books(rest).insert(e.4, file_type_of(e.3))
        },
    decreases rest.len(),
{
    if rest.len() == 0 {
        let s = seq![e] + rest;
        assert(s.drop_last() =~= Seq::<(u128, Seq<char>, Seq<char>, Seq<char>, Seq<char>)>::empty());
        assert(s.last() == e);
        assert(known_books(s.drop_last()) =~= Map::<Seq<char>, BookFileTypes>::empty());
        assert(known_books(s) =~= Map::<Seq<char>, BookFileTypes>::empty().insert(e.4, file_type_of(e.3)));
    } else {
        lemma_known_books_prepend(e, rest.drop_last());
        let s = seq![e] + rest;
        assert(s.drop_last() =~= seq![e] + rest.drop_last());
        assert(s.last() == rest.last());
        let l = rest.last();
        if known_books(rest.drop_last()).contains_key(e.4) {
            assert(known_books(s) =~= known_books(rest));
        } else if l.4 == e.4 {
            assert(known_books(s) =~= known_books(rest));
        } else {
            assert(known_books(s) =~= if known_books(rest).contains_key(e.4) {
                known_books(rest)
            } else {
                known_books(rest).insert(e.4, file_type_of(e.3))
            });
        }
    }
}

fn contains_path(books: &Vec<(String, BookFileTypes)>, path: &String) -> (b: bool)
    ensures
        b == first_wins(pairs_view(books@)).contains_key(path@),
{
    let ghost ps = pairs_view(books@);
    for i in 0..books.len()
        invariant
            ps == pairs_view(books@),
            forall|j: int| 0 <= j < i ==> #[trigger] ps[j].0 != path@,
    {
        proof {
            assert(ps[i as int] == (books@[i as int].0@, books@[i as int].1));
        }
        if books[i].0 == *path {
            proof {
                assert(ps[i as int].0 == path@);
                lemma_first_wins_contains(ps, path@);
            }
            return true;
        }
    }
    proof {
        lemma_first_wins_contains(ps, path@);
    }
    false
}

/// Adds `(path, t)` unless `path` is there already.
fn add_if_absent(books: &mut Vec<(String, BookFileTypes)>, path: String, t: BookFileTypes)
    ensures
        distinct_paths(pairs_view(old(books)@)) ==> distinct_paths(pairs_view(final(books)@)),
        first_wins(pairs_view(final(books)@)) == if first_wins(pairs_view(old(books)@)).contains_key(
            path@,
        ) {
            first_wins(pairs_view(old(books)@))
        } else {
            first_wins(pairs_view(old(books)@)).insert(path@, t)
        },
{
    if !contains_path(books, &path) {
        let ghost before = books@;
        let ghost pv = path@;
        books.push((path, t));
        proof {
            let ps = pairs_view(books@);
            let old_ps = pairs_view(before);
            assert(ps.drop_last() =~= old_ps);
            assert(ps.last() == (pv, t));
            lemma_first_wins_contains(old_ps, pv);
            if distinct_paths(old_ps) {
                assert forall|a: int, b: int| 0 <= a < b < ps.len() implies #[trigger] ps[a].0
                    != #[trigger] ps[b].0 by {
                    assert(ps[a] == old_ps[a]);
                    if b < old_ps.len() {
                        assert(ps[b] == old_ps[b]);
                    } else {
                        assert(ps[b].0 == pv);
                    }
                }
            }
        }
    }
}

/// The books to open: those the book map records (path to type) and the
/// `(path, file name)` files found in the sources, as [`known_books`] and
/// [`scan_books`] say. Each path occurs once in the result.
pub fn merge_book_sources(book_map: &Vec<BookMap>, files: &Vec<(String, String)>) -> (books: Vec<
    (String, BookFileTypes),
>)
    ensures
        distinct_paths(pairs_view(books@)),
        first_wins(pairs_view(books@)) == scan_books(
            known_books(book_map_view(book_map@)),
            files@.map_values(|f: (String, String)| (f.0@, f.1@)),
        ),
{
    let ghost entries = book_map_view(book_map@);
    let mut books: Vec<(String, BookFileTypes)> = Vec::new();
    let mut i = book_map.len();
    proof {
        assert(entries.skip(i as int) =~= Seq::<(u128, Seq<char>, Seq<char>, Seq<char>, Seq<char>)>::empty());
        assert(first_wins(pairs_view(books@)) =~= Map::<Seq<char>, BookFileTypes>::empty());
    }
    while i > 0
        invariant
            entries == book_map_view(book_map@),
            i <= book_map.len(),
            distinct_paths(pairs_view(books@)),
            first_wins(pairs_view(books@)) == known_books(entries.skip(i as int)),
        decreases i,
    {
        let e = &book_map[i - 1];
        proof {
            assert(entries[i - 1] == e@);
            assert(entries.skip(i - 1) =~= seq![e@] + entries.skip(i as int));
            lemma_known_books_prepend(e@, entries.skip(i as int));
        }
        add_if_absent(&mut books, String::from_str(e.get_filepath()), e.get_filetype());
        i = i - 1;
    }
    proof {
        assert(entries.skip(0) =~= entries);
    }
    let ghost known = known_books(entries);
    let ghost fs = files@.map_values(|f: (String, String)| (f.0@, f.1@));
    for k in 0..files.len()
        invariant
            fs == files@.map_values(|f: (String, String)| (f.0@, f.1@)),
            distinct_paths(pairs_view(books@)),
            first_wins(pairs_view(books@)) == scan_books(known, fs.take(k as int)),
    {
        proof {
            assert(fs.take(k + 1).drop_last() =~= fs.take(k as int));
            assert(fs.take(k + 1).last() == fs[k as int]);
        }
        let (path, name) = (&files[k].0, &files[k].1);
        if !contains_path(&books, path) {
            match file_extension(name.as_str()) {
                Some(ext) => {
                    if !ext.as_str().is_empty() {
                        let t = BookFileTypes::new(ext.as_str());
                        add_if_absent(&mut books, path.clone(), t);
                    }
                },
                None => {},
            }
        }
    }
    proof {
        assert(fs.take(files.len() as int) =~= fs);
    }
    books
}

} // verus!
