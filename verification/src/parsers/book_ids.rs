//! Book identity: each book file gets a UUID, recorded in the book map, and
//! is unpacked into a directory named after it.

use vstd::prelude::*;
use vstd::string::StringExecFns;
use crate::common::filetypes::BookFileTypes;
use crate::common::settings::BookMap;
use crate::parsers::paths::{
    get_file_name_from_path, last_segment, path_join, path_join_of, PathError,
};
use crate::text::{all_ws, digit_char, is_blank, push_char};

verus! {

pub open spec fn hex_digit(d: nat) -> char {
    if d < 10 {
        digit_char(d)
    } else if d == 10 {
        'a'
    } else if d == 11 {
        'b'
    } else if d == 12 {
        'c'
    } else if d == 13 {
        'd'
    } else if d == 14 {
        'e'
    } else {
        'f'
    }
}

/// The last `n` hexadecimal digits of `u`, most significant first.
pub open spec fn hex_digits(u: nat, n: nat) -> Seq<char>
    decreases n,
{
    if n == 0 {
        Seq::empty()
    } else {
        hex_digits(u / 16, (n - 1) as nat).push(hex_digit(u % 16))
    }
}

/// `h` with a hyphen before its 9th, 13th, 17th and 21st characters.
pub open spec fn hyphenate(h: Seq<char>) -> Seq<char>
    decreases h.len(),
{
    if h.len() == 0 {
        Seq::empty()
    } else {
        let k = h.len() - 1;
        if k == 8 || k == 12 || k == 16 || k == 20 {
            hyphenate(h.drop_last()).push('-').push(h.last())
        } else {
            hyphenate(h.drop_last()).push(h.last())
        }
    }
}

/// The hyphenated lower-case form of a UUID, as `Uuid`'s `Display` writes
/// it (`xxxxxxxx-xxxx-xxxx-xxxx-xxxxxxxxxxxx`).
pub open spec fn uuid_text(u: u128) -> Seq<char> {
    hyphenate(hex_digits(u as nat, 32))
}

fn hex_char(d: u128) -> (c: char)
    requires
        d < 16,
    ensures
        c == hex_digit(d as nat),
{
    if d == 0 {
        '0'
    } else if d == 1 {
        '1'
    } else if d == 2 {
        '2'
    } else if d == 3 {
        '3'
    } else if d == 4 {
        '4'
    } else if d == 5 {
        '5'
    } else if d == 6 {
        '6'
    } else if d == 7 {
        '7'
    } else if d == 8 {
        '8'
    } else if d == 9 {
        '9'
    } else if d == 10 {
        'a'
    } else if d == 11 {
        'b'
    } else if d == 12 {
        'c'
    } else if d == 13 {
        'd'
    } else if d == 14 {
        'e'
    } else {
        'f'
    }
}

/// Writes `u` in the hyphenated form of [`uuid_text`].
pub fn uuid_to_string(u: u128) -> (s: String)
    ensures
        s@ == uuid_text(u),
{
    let mut low_first: Vec<char> = Vec::new();
    let mut v: u128 = u;
    let mut i: usize = 0;
    while i < 32
        invariant
            i <= 32,
            low_first@.len() == i,
            hex_digits(u as nat, 32) == hex_digits(v as nat, (32 - i) as nat)
                + low_first@.reverse(),
        decreases 32 - i,
    {
        proof {
            let rest = hex_digits(v as nat, (32 - i) as nat);
            assert(rest == hex_digits((v / 16) as nat, (31 - i) as nat).push(
                hex_digit((v % 16) as nat),
            ));
            assert(low_first@.push(hex_digit((v % 16) as nat)).reverse() =~= seq![
                hex_digit((v % 16) as nat),
            ] + low_first@.reverse());
        }
        low_first.push(hex_char(v % 16));
        v = v / 16;
        i = i + 1;
    }
    let ghost h = hex_digits(u as nat, 32);
    proof {
        assert(hex_digits(v as nat, 0) =~= Seq::<char>::empty());
        assert(h =~= low_first@.reverse());
    }
    let mut s = String::new();
    let mut k: usize = 0;
    while k < 32
        invariant
            k <= 32,
            low_first@.len() == 32,
            h == low_first@.reverse(),
            s@ == hyphenate(h.take(k as int)),
        decreases 32 - k,
    {
        proof {
            assert(h.take(k + 1).drop_last() =~= h.take(k as int));
            assert(h.take(k + 1).last() == h[k as int]);
            assert(h[k as int] == low_first@[31 - k]);
        }
        if k == 8 || k == 12 || k == 16 || k == 20 {
            push_char(&mut s, '-');
        }
        push_char(&mut s, low_first[31 - k]);
        k = k + 1;
    }
    proof {
        assert(h.take(32) =~= h);
    }
    s
}

/// A random version-4 UUID, by `uuid::Uuid::new_v4`. Trusted, and, as its
/// source shows, the version nibble (bits 76..80) is 4 and the variant
/// bits (62..64) are `10`; the other bits are random and nothing is stated
/// of them.
#[verifier::external_body]
fn new_random_uuid() -> (u: u128)
    ensures
        (u >> 76u128) & 0xfu128 == 4,
        (u >> 62u128) & 0x3u128 == 2,
{
    uuid::Uuid::new_v4().as_u128()
}

/// The UUID of the first book-map entry for file name `name`.
pub open spec fn uuid_for_name(
    entries: Seq<(u128, Seq<char>, Seq<char>, Seq<char>, Seq<char>)>,
    name: Seq<char>,
) -> Option<u128>
    decreases entries.len(),
{
    if entries.len() == 0 {
        None
    } else if entries[0].1 == name {
        Some(entries[0].0)
    } else {
        uuid_for_name(entries.drop_first(), name)
    }
}

pub open spec fn book_map_view(m: Seq<BookMap>) -> Seq<(u128, Seq<char>, Seq<char>, Seq<char>, Seq<char>)> {
    m.map_values(|e: BookMap| e@)
}

proof fn lemma_uuid_for_name_skip(
    entries: Seq<(u128, Seq<char>, Seq<char>, Seq<char>, Seq<char>)>,
    name: Seq<char>,
    i: int,
)
    requires
        0 <= i <= entries.len(),
        forall|j: int| 0 <= j < i ==> #[trigger] entries[j].1 != name,
    ensures
        uuid_for_name(entries, name) == uuid_for_name(entries.skip(i), name),
    decreases i,
{
    if i > 0 {
        lemma_uuid_for_name_skip(entries, name, i - 1);
        assert(entries.skip(i - 1).drop_first() =~= entries.skip(i));
        assert(entries.skip(i - 1)[0] == entries[i - 1]);
    } else {
        assert(entries.skip(0) =~= entries);
    }
}

/// Once a book's UUID has been recorded, asking again for the same file
/// name finds it: after the entry that [`get_book_uuid`] appends for a
/// name the map did not know, the map answers that name with the new UUID.
pub proof fn law_recorded_uuid_is_found(
    entries: Seq<(u128, Seq<char>, Seq<char>, Seq<char>, Seq<char>)>,
    entry: (u128, Seq<char>, Seq<char>, Seq<char>, Seq<char>),
)
    requires
        uuid_for_name(entries, entry.1) is None,
    ensures
        uuid_for_name(entries.push(entry), entry.1) == Some(entry.0),
    decreases entries.len(),
{
    if entries.len() == 0 {
        assert(entries.push(entry)[0] == entry);
    } else {
        assert(entries.push(entry).drop_first() =~= entries.drop_first().push(entry));
        assert(entries.push(entry)[0] == entries[0]);
        law_recorded_uuid_is_found(entries.drop_first(), entry);
    }
}

/// The UUID of the book whose file name (without extension) is
/// `file_name`: the one the book map records for it, or else a new random
/// one, recorded in the map together with the directory
/// `parent_file_path`/`uuid` it names, the file type and the file path.
pub fn get_book_uuid(
    filetype: &str,
    file_name: &str,
    parent_file_path: &str,
    filepath: &str,
    book_map: &mut Vec<BookMap>,
) -> (u: u128)
    ensures
        match uuid_for_name(book_map_view(old(book_map)@), file_name@) {
            Some(known) => u == known && final(book_map)@ == old(book_map)@,
            None => {
                &&& book_map_view(final(book_map)@) == book_map_view(old(book_map)@).push(
                    (
                        u,
                        file_name@,
                        path_join_of(parent_file_path@, uuid_text(u)),
                        filetype@,
                        filepath@,
                    ),
                )
                &&& (u >> 76u128) & 0xfu128 == 4
                &&& (u >> 62u128) & 0x3u128 == 2
            },
        },
{
    let ghost entries = book_map_view(book_map@);
    let name = String::from_str(file_name);
    for i in 0..book_map.len()
        invariant
            entries == book_map_view(book_map@),
            book_map@ == old(book_map)@,
            name@ == file_name@,
            forall|j: int| 0 <= j < i ==> #[trigger] entries[j].1 != file_name@,
    {
        proof {
            assert(entries[i as int] == book_map@[i as int]@);
        }
        let known = String::from_str(book_map[i].get_filename());
        if known == name {
            proof {
                lemma_uuid_for_name_skip(entries, file_name@, i as int);
                assert(entries.skip(i as int)[0] == entries[i as int]);
            }
            return book_map[i].get_uuid();
        }
    }
    proof {
        lemma_uuid_for_name_skip(entries, file_name@, book_map.len() as int);
    }
    let u = new_random_uuid();
    let id_text = uuid_to_string(u);
    let folder = path_join(parent_file_path, id_text.as_str());
    let ghost before = book_map@;
    book_map.push(BookMap::new(u, file_name, folder.as_str(), filetype, filepath));
    proof {
        assert(book_map_view(book_map@) =~= book_map_view(before).push(
            (u, file_name@, path_join_of(parent_file_path@, uuid_text(u)), filetype@, filepath@),
        ));
    }
    u
}

/// The characters of `s` before its first `.` (the first item of
/// `s.split(".")`).
pub open spec fn before_dot(s: Seq<char>) -> Seq<char>
    decreases s.len(),
{
    if s.len() == 0 || s[0] == '.' {
        Seq::empty()
    } else {
        seq![s[0]] + before_dot(s.drop_first())
    }
}

/// The name, without extension, under which the book at `filepath` is
/// unpacked: its file name up to the first `.`. Refused when that is empty
/// or blank, and then when the file type is unknown.
pub open spec fn folder_stem(file_type: BookFileTypes, filepath: Seq<char>) -> Result<
    Seq<char>,
    PathError,
> {
    let stem = before_dot(last_segment(filepath));
    if all_ws(stem) {
        Err(PathError::EmptyFileName)
    } else if file_type == BookFileTypes::UnknownFileType {
        Err(PathError::UnknownFileType)
    } else {
        Ok(stem)
    }
}

fn before_first_dot(s: &String) -> (r: String)
    ensures
        r@ == before_dot(s@),
{
    broadcast use vstd::string::group_string_axioms;

    let mut r = String::new();
    let mut stopped = false;
    let ghost mut seen: Seq<char> = Seq::empty();
    proof {
        assert(s@.skip(0) =~= s@);
        assert(r@ + before_dot(s@) =~= before_dot(s@));
    }
    for c in it: s.as_str().chars()
        invariant
            it.seq() == s@,
            seen == s@.take(it.index()),
            before_dot(s@) == if stopped {
                r@
            } else {
                r@ + before_dot(s@.skip(it.index()))
            },
    {
        proof {
            let rest = s@.skip(it.index());
            assert(rest[0] == c);
            assert(rest.drop_first() =~= s@.skip(it.index() + 1));
            seen = seen.push(c);
        }
        if !stopped {
            if c == '.' {
                stopped = true;
                proof {
                    assert(r@ + Seq::<char>::empty() =~= r@);
                }
            } else {
                proof {
                    assert(r@ + (seq![c] + before_dot(s@.skip(it.index() + 1))) =~= r@.push(c)
                        + before_dot(s@.skip(it.index() + 1)));
                }
                push_char(&mut r, c);
            }
        }
    }
    proof {
        if !stopped {
            assert(s@.skip(s@.len() as int) =~= Seq::<char>::empty());
            assert(r@ + Seq::<char>::empty() =~= r@);
        }
    }
    r
}

/// The name without extension under which the book at `filepath` is
/// unpacked (see [`folder_stem`]).
pub fn book_folder_stem(file_type: &BookFileTypes, filepath: &str) -> (r: Result<String, PathError>)
    ensures
        match (r, folder_stem(*file_type, filepath@)) {
            (Ok(s), Ok(t)) => s@ == t,
            (Err(e), Err(f)) => e == f,
            _ => false,
        },
{
    let file_name = match get_file_name_from_path(filepath) {
        Ok(n) => n,
        Err(e) => {
            return Err(e);
        },
    };
    let stem = before_first_dot(&file_name);
    if is_blank(stem.as_str()) {
        Err(PathError::EmptyFileName)
    } else {
        match file_type {
            BookFileTypes::EpubFileType => Ok(stem),
            BookFileTypes::UnknownFileType => Err(PathError::UnknownFileType),
        }
    }
}

/// The directory into which the book at `filepath` is unpacked:
/// `epub_dir_path` joined with the book's UUID (see [`get_book_uuid`]),
/// looked up or recorded under the name of [`folder_stem`].
pub fn get_book_folder_path(
    file_type: &BookFileTypes,
    filepath: &str,
    book_map: &mut Vec<BookMap>,
    epub_dir_path: &str,
) -> (r: Result<String, PathError>)
    ensures
        match folder_stem(*file_type, filepath@) {
            Err(e) => r == Err::<String, PathError>(e) && final(book_map)@ == old(book_map)@,
            Ok(stem) => match r {
                Ok(p) => {
                    let u = match uuid_for_name(book_map_view(old(book_map)@), stem) {
                        Some(known) => known,
                        None => book_map_view(final(book_map)@).last().0,
                    };
                    &&& p@ == path_join_of(epub_dir_path@, uuid_text(u))
                    &&& match uuid_for_name(book_map_view(old(book_map)@), stem) {
                        Some(_) => final(book_map)@ == old(book_map)@,
                        None => book_map_view(final(book_map)@) == book_map_view(
                            old(book_map)@,
                        ).push(
                            (
                                u,
                                stem,
                                path_join_of(epub_dir_path@, uuid_text(u)),
                                "epub"@,
                                filepath@,
                            ),
                        ),
                    }
                },
                Err(_) => false,
            },
        },
{
    let stem = match book_folder_stem(file_type, filepath) {
        Ok(s) => s,
        Err(e) => {
            return Err(e);
        },
    };
    let u = get_book_uuid("epub", stem.as_str(), epub_dir_path, filepath, book_map);
    let id_text = uuid_to_string(u);
    Ok(path_join(epub_dir_path, id_text.as_str()))
}

} // verus!
